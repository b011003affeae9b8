//! The render-side snapshot: the current display map plus the player's
//! equipment and item lists, as last pushed by the world engine. Printing
//! this snapshot to a terminal is the caller's business.

use vstd::prelude::*;

verus! {

use crate::equipment::{Equipment, EquipmentView};
use crate::item::{Item, ItemView};
use crate::{lemma_text_rows_push, text_rows, views};

/// The mathematical value of the render snapshot.
pub ghost struct UIView {
    pub map: Seq<Seq<Seq<char>>>,
    pub equipments: Seq<EquipmentView>,
    pub items: Seq<ItemView>,
}

pub struct UI {
    map_to_display: Vec<Vec<String>>,
    equipments_to_display: Vec<Equipment>,
    items_to_display: Vec<Item>,
}

impl View for UI {
    type V = UIView;

    closed spec fn view(&self) -> UIView {
        UIView {
            map: text_rows(self.map_to_display@),
            equipments: views(self.equipments_to_display@),
            items: views(self.items_to_display@),
        }
    }
}

impl UI {
    /// A blank snapshot. Even dimensions are promoted to odd ones, matching
    /// the carve-friendly sizes the maze prefers.
    pub fn new(size: usize) -> (r: UI)
        requires
            size < usize::MAX,
        ensures
            r@.map.len() == if size % 2 == 0 {
                size + 1
            } else {
                size as int
            },
            forall|y: int|
                0 <= y < r@.map.len() ==> #[trigger] r@.map[y].len() == r@.map.len(),
            forall|y: int, x: int|
                0 <= y < r@.map.len() && 0 <= x < r@.map.len() ==> #[trigger] r@.map[y][x]
                    == Seq::<char>::empty(),
            r@.equipments == Seq::<EquipmentView>::empty(),
            r@.items == Seq::<ItemView>::empty(),
    {
        let mut width = size;
        if width % 2 == 0 {
            width = width + 1;
        }
        let mut height = size;
        if height % 2 == 0 {
            height = height + 1;
        }
        let mut map: Vec<Vec<String>> = Vec::new();
        let mut y: usize = 0;
        while y < height
            invariant
                y <= height,
                text_rows(map@).len() == y,
                forall|j: int|
                    0 <= j < y ==> #[trigger] text_rows(map@)[j].len() == width as int,
                forall|j: int, x: int|
                    0 <= j < y && 0 <= x < width ==> #[trigger] text_rows(map@)[j][x]
                        == Seq::<char>::empty(),
            decreases height - y,
        {
            let mut row: Vec<String> = Vec::new();
            let mut x: usize = 0;
            while x < width
                invariant
                    x <= width,
                    row@.len() == x,
                    forall|k: int| 0 <= k < x ==> (#[trigger] row@[k])@ == Seq::<char>::empty(),
                decreases width - x,
            {
                row.push(String::new());
                x = x + 1;
            }
            proof {
                lemma_text_rows_push(map@, row);
            }
            map.push(row);
            y = y + 1;
        }
        let r = UI {
            map_to_display: map,
            equipments_to_display: Vec::new(),
            items_to_display: Vec::new(),
        };
        proof {
            assert(r@.equipments =~= Seq::<EquipmentView>::empty());
            assert(r@.items =~= Seq::<ItemView>::empty());
        }
        r
    }

    /// Replaces the display map.
    pub fn update_map(&mut self, map: Vec<Vec<String>>)
        ensures
            final(self)@ == (UIView { map: text_rows(map@), ..old(self)@ }),
    {
        self.map_to_display = map;
    }

    /// Replaces the displayed equipment list.
    pub fn update_equipments(&mut self, equipments: Vec<Equipment>)
        ensures
            final(self)@ == (UIView { equipments: views(equipments@), ..old(self)@ }),
    {
        self.equipments_to_display = equipments;
    }

    /// Replaces the displayed item list.
    pub fn update_items(&mut self, items: Vec<Item>)
        ensures
            final(self)@ == (UIView { items: views(items@), ..old(self)@ }),
    {
        self.items_to_display = items;
    }

    pub fn map(&self) -> (r: &Vec<Vec<String>>)
        ensures
            text_rows(r@) == self@.map,
    {
        &self.map_to_display
    }

    pub fn equipments(&self) -> (r: &Vec<Equipment>)
        ensures
            views(r@) == self@.equipments,
    {
        &self.equipments_to_display
    }

    pub fn items(&self) -> (r: &Vec<Item>)
        ensures
            views(r@) == self@.items,
    {
        &self.items_to_display
    }
}

} // verus!
