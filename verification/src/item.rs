//! Consumable item pickups (healing potions) and their position-indexed
//! registry.

use vstd::prelude::*;

verus! {

use crate::data::PickupData;
use crate::{chebyshev_check, chebyshev_within, lemma_filter_push, lemma_views_push, views};

#[derive(Clone, Copy, Debug, PartialEq, Eq, Structural)]
pub enum ItemType {
    HealingPotion,
}

/// The mathematical value of an item pickup.
pub ghost struct ItemView {
    pub name: Seq<char>,
    pub icon: Seq<char>,
    pub description: Seq<char>,
    pub item_type: ItemType,
    pub position: (usize, usize),
    pub visible: bool,
    pub equiped: bool,
}

pub struct Item {
    name: String,
    icon: String,
    description: String,
    item_type: ItemType,
    position: (usize, usize),
    visible: bool,
    equiped: bool,
}

impl View for Item {
    type V = ItemView;

    closed spec fn view(&self) -> ItemView {
        ItemView {
            name: self.name@,
            icon: self.icon@,
            description: self.description@,
            item_type: self.item_type,
            position: self.position,
            visible: self.visible,
            equiped: self.equiped,
        }
    }
}

impl Clone for Item {
    fn clone(&self) -> (r: Self)
        ensures
            r@ == self@,
    {
        Item {
            name: self.name.clone(),
            icon: self.icon.clone(),
            description: self.description.clone(),
            item_type: self.item_type,
            position: self.position,
            visible: self.visible,
            equiped: self.equiped,
        }
    }
}

impl Item {
    /// A freshly placed pickup: visible, not yet taken, described by the
    /// injected record for its type.
    pub fn new(data: &PickupData, item_type: ItemType, position: (usize, usize)) -> (r: Item)
        ensures
            r@ == (ItemView {
                name: data@.name,
                icon: data@.icon,
                description: data@.description,
                item_type,
                position,
                visible: true,
                equiped: false,
            }),
    {
        Item {
            name: data.name.clone(),
            icon: data.icon.clone(),
            description: data.description.clone(),
            item_type,
            position,
            visible: true,
            equiped: false,
        }
    }

    pub fn get_name(&self) -> (r: &str)
        ensures
            r@ == self@.name,
    {
        self.name.as_str()
    }

    pub fn get_icon(&self) -> (r: &str)
        ensures
            r@ == self@.icon,
    {
        self.icon.as_str()
    }

    pub fn get_description(&self) -> (r: &str)
        ensures
            r@ == self@.description,
    {
        self.description.as_str()
    }

    pub fn get_position(&self) -> (r: (usize, usize))
        ensures
            r == self@.position,
    {
        self.position
    }

    pub fn get_type(&self) -> (r: &ItemType)
        ensures
            *r == self@.item_type,
    {
        &self.item_type
    }

    /// A random item type. Every draw is a healing potion: it is the only
    /// item kind there is.
    pub fn random() -> (r: ItemType)
        ensures
            r == ItemType::HealingPotion,
    {
        match crate::rng::rand_below(6) {
            0 => ItemType::HealingPotion,
            _ => ItemType::HealingPotion,
        }
    }

    pub fn is_visible(&self) -> (r: bool)
        ensures
            r == self@.visible,
    {
        self.visible
    }

    pub fn set_visible(&mut self, visible: bool)
        ensures
            final(self)@ == (ItemView { visible, ..old(self)@ }),
    {
        self.visible = visible;
    }

    pub fn is_equiped(&self) -> (r: bool)
        ensures
            r == self@.equiped,
    {
        self.equiped
    }

    pub fn set_equiped(&mut self, equiped: bool)
        ensures
            final(self)@ == (ItemView { equiped, ..old(self)@ }),
    {
        self.equiped = equiped;
    }
}

/// Insertion-ordered registry of item pickups. Entries are never removed: a
/// collected item is only marked invisible and equiped.
pub struct ItemManager {
    items: Vec<Item>,
}

impl View for ItemManager {
    type V = Seq<ItemView>;

    closed spec fn view(&self) -> Seq<ItemView> {
        views(self.items@)
    }
}

impl ItemManager {
    pub fn new() -> (r: ItemManager)
        ensures
            r@ == Seq::<ItemView>::empty(),
    {
        let r = ItemManager { items: Vec::new() };
        proof {
            assert(r@ =~= Seq::<ItemView>::empty());
        }
        r
    }

    pub fn add(&mut self, item: Item)
        ensures
            final(self)@ == old(self)@.push(item@),
    {
        proof {
            lemma_views_push(self.items@, item);
        }
        self.items.push(item);
    }

    pub fn len(&self) -> (r: usize)
        ensures
            r == self@.len(),
    {
        self.items.len()
    }

    pub fn get(&self, i: usize) -> (r: &Item)
        requires
            i < self@.len(),
        ensures
            r@ == self@[i as int],
    {
        &self.items[i]
    }

    /// All entries within Chebyshev distance `range` of `position`, in
    /// insertion order.
    pub fn within_range(&self, position: (usize, usize), range: usize) -> (r: Vec<Item>)
        ensures
            views(r@) == self@.filter(
                |e: ItemView| chebyshev_within(e.position, position, range),
            ),
    {
        let ghost pred = |e: ItemView| chebyshev_within(e.position, position, range);
        let mut r: Vec<Item> = Vec::new();
        let n = self.items.len();
        let mut i: usize = 0;
        proof {
            assert(views(r@) =~= Seq::<ItemView>::empty());
            assert(self@.take(0) =~= Seq::<ItemView>::empty());
            assert(Seq::<ItemView>::empty().filter(pred) =~= Seq::<ItemView>::empty()) by {
                reveal(Seq::filter);
            }
        }
        while i < n
            invariant
                n == self.items@.len(),
                self@.len() == n,
                i <= n,
                pred == (|e: ItemView| chebyshev_within(e.position, position, range)),
                views(r@) == self@.take(i as int).filter(pred),
            decreases n - i,
        {
            proof {
                assert(self@.take(i + 1).drop_last() =~= self@.take(i as int));
                assert(self@.take(i + 1) =~= self@.take(i as int).push(self@[i as int]));
                lemma_filter_push(self@.take(i as int), self@[i as int], pred);
            }
            let e = &self.items[i];
            assert(e@ == self@[i as int]);
            if chebyshev_check(e.position, position, range) {
                let c = e.clone();
                proof {
                    lemma_views_push(r@, c);
                }
                r.push(c);
            }
            i = i + 1;
        }
        proof {
            assert(self@.take(n as int) =~= self@);
        }
        r
    }

    /// Whether some entry sits at exactly `position`.
    pub fn is_position_occupied(&self, position: (usize, usize)) -> (r: bool)
        ensures
            r == exists|i: int| 0 <= i < self@.len() && self@[i].position == position,
    {
        let n = self.items.len();
        let mut i: usize = 0;
        while i < n
            invariant
                n == self@.len(),
                i <= n,
                forall|j: int| 0 <= j < i ==> self@[j].position != position,
            decreases n - i,
        {
            let e = &self.items[i];
            if e.position.0 == position.0 && e.position.1 == position.1 {
                assert(self@[i as int].position == position);
                return true;
            }
            i = i + 1;
        }
        false
    }

    /// The index of the first entry at `position`, if any.
    pub fn find_at(&self, position: (usize, usize)) -> (r: Option<usize>)
        ensures
            match r {
                Some(i) => {
                    &&& 0 <= i < self@.len()
                    &&& self@[i as int].position == position
                    &&& forall|j: int| 0 <= j < i ==> self@[j].position != position
                },
                None => forall|j: int| 0 <= j < self@.len() ==> self@[j].position != position,
            },
    {
        let n = self.items.len();
        let mut i: usize = 0;
        while i < n
            invariant
                n == self@.len(),
                i <= n,
                forall|j: int| 0 <= j < i ==> self@[j].position != position,
            decreases n - i,
        {
            let e = &self.items[i];
            if e.position.0 == position.0 && e.position.1 == position.1 {
                return Some(i);
            }
            i = i + 1;
        }
        None
    }

    /// The first entry at `position`, mutably, in insertion order.
    pub fn get_mut(&mut self, position: (usize, usize)) -> (r: Option<&mut Item>)
        ensures
            match r {
                Some(e) => exists|i: int|
                    {
                        &&& 0 <= i < old(self)@.len()
                        &&& old(self)@[i].position == position
                        &&& (*e)@ == old(self)@[i]
                        &&& final(self)@ == old(self)@.update(i, (*final(e))@)
                    },
                None => {
                    &&& final(self)@ == old(self)@
                    &&& forall|j: int|
                        0 <= j < old(self)@.len() ==> old(self)@[j].position != position
                },
            },
    {
        let n = self.items.len();
        let mut i: usize = 0;
        while i < n
            invariant
                n == self.items@.len(),
                self.items@ == old(self).items@,
                i <= n,
                forall|j: int| 0 <= j < i ==> views(self.items@)[j].position != position,
            decreases n - i,
        {
            if self.items[i].position.0 == position.0 && self.items[i].position.1 == position.1 {
                let ghost wi = i as int;
                let e = &mut self.items[i];
                proof {
                    assert(old(self)@[wi].position == position);
                    assert(views(after_borrow(self.items)@) =~= old(self)@.update(
                        wi,
                        (*final(e))@,
                    ));
                }
                return Some(e);
            }
            i = i + 1;
        }
        None
    }

    /// Marks the entry at index `i` visible or not.
    pub fn set_visible_at(&mut self, i: usize, visible: bool)
        requires
            i < old(self)@.len(),
        ensures
            final(self)@ == old(self)@.update(
                i as int,
                (ItemView { visible, ..old(self)@[i as int] }),
            ),
    {
        let e = &mut self.items[i];
        e.set_visible(visible);
        proof {
            assert(views(after_borrow(self.items)@) =~= old(self)@.update(
                i as int,
                (ItemView { visible, ..old(self)@[i as int] }),
            ));
        }
    }

    /// Marks the entry at index `i` collected or not.
    pub fn set_equiped_at(&mut self, i: usize, equiped: bool)
        requires
            i < old(self)@.len(),
        ensures
            final(self)@ == old(self)@.update(
                i as int,
                (ItemView { equiped, ..old(self)@[i as int] }),
            ),
    {
        let e = &mut self.items[i];
        e.set_equiped(equiped);
        proof {
            assert(views(after_borrow(self.items)@) =~= old(self)@.update(
                i as int,
                (ItemView { equiped, ..old(self)@[i as int] }),
            ));
        }
    }
}

} // verus!
