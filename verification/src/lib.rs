//! A terminal dungeon-crawl engine: a player explores a randomly carved maze,
//! collects items and equipment, fights monsters and seeks a goal tile.
//!
//! The world state lives in [`grid::Grid`]; entities are modelled in
//! [`entity`], [`monster`] and [`player`]; pickups in [`item`] and
//! [`equipment`]. Entity stat records are injected through [`data`] rather
//! than loaded here, and all randomness comes through [`rng`].

use vstd::prelude::*;

pub mod combat;
pub mod data;
pub mod entity;
pub mod equipment;
pub mod item;
pub mod monster;
pub mod player;
pub mod ui;
pub mod grid;
pub mod rng;

verus! {

/// True when `x` fits in an `i32`.
pub open spec fn fits_i32(x: int) -> bool {
    i32::MIN <= x <= i32::MAX
}

/// The absolute difference of two coordinates.
pub open spec fn abs_diff(a: usize, b: usize) -> int {
    if a >= b {
        a - b
    } else {
        b - a
    }
}

/// Chebyshev distance between `a` and `b` is at most `r`: the square-shaped
/// sight and interaction range used throughout the world engine.
pub open spec fn chebyshev_within(a: (usize, usize), b: (usize, usize), r: usize) -> bool {
    abs_diff(a.0, b.0) <= r && abs_diff(a.1, b.1) <= r
}

/// Exec check for [`chebyshev_within`].
pub fn chebyshev_check(a: (usize, usize), b: (usize, usize), r: usize) -> (res: bool)
    ensures
        res == chebyshev_within(a, b, r),
{
    let dx = if a.0 >= b.0 {
        a.0 - b.0
    } else {
        b.0 - a.0
    };
    let dy = if a.1 >= b.1 {
        a.1 - b.1
    } else {
        b.1 - a.1
    };
    dx <= r && dy <= r
}

/// The element-wise view of a sequence of viewable values.
pub open spec fn views<T: View>(s: Seq<T>) -> Seq<T::V> {
    s.map_values(|t: T| t@)
}

/// `views` distributes over `push`.
pub proof fn lemma_views_push<T: View>(s: Seq<T>, x: T)
    ensures
        views(s.push(x)) == views(s).push(x@),
{
    assert(views(s.push(x)) =~= views(s).push(x@));
}

/// The character grid a sequence of string rows displays as.
pub open spec fn text_rows(m: Seq<Vec<String>>) -> Seq<Seq<Seq<char>>> {
    m.map_values(|row: Vec<String>| row@.map_values(|s: String| s@))
}

/// `text_rows` distributes over `push`.
pub proof fn lemma_text_rows_push(m: Seq<Vec<String>>, row: Vec<String>)
    ensures
        text_rows(m.push(row)) == text_rows(m).push(row@.map_values(|s: String| s@)),
{
    assert(text_rows(m.push(row)) =~= text_rows(m).push(row@.map_values(|s: String| s@)));
}

/// Filtering a sequence extended by one element keeps the old filtered prefix.
pub proof fn lemma_filter_push<A>(s: Seq<A>, x: A, pred: spec_fn(A) -> bool)
    ensures
        s.push(x).filter(pred) == if pred(x) {
            s.filter(pred).push(x)
        } else {
            s.filter(pred)
        },
{
    reveal(Seq::filter);
    assert(s.push(x).drop_last() =~= s);
}

} // verus!
