//! Equipment pickups (hats, glasses, vests, pants, whips, shoes) and the
//! position-indexed registry that holds the copies scattered over the maze.

use vstd::prelude::*;

verus! {

use crate::data::PickupData;
use crate::{chebyshev_check, chebyshev_within, lemma_filter_push, lemma_views_push, views};

#[derive(Clone, Copy, Debug, PartialEq, Eq, Structural)]
pub enum EquipmentType {
    Hat,
    Glasses,
    Vest,
    Pants,
    Whip,
    Shoes,
}

/// The mathematical value of an equipment pickup.
pub ghost struct EquipmentView {
    pub name: Seq<char>,
    pub icon: Seq<char>,
    pub description: Seq<char>,
    pub equipment_type: EquipmentType,
    pub position: (usize, usize),
    pub visible: bool,
    pub equiped: bool,
}

pub struct Equipment {
    name: String,
    icon: String,
    description: String,
    equipment_type: EquipmentType,
    position: (usize, usize),
    visible: bool,
    equiped: bool,
}

impl View for Equipment {
    type V = EquipmentView;

    closed spec fn view(&self) -> EquipmentView {
        EquipmentView {
            name: self.name@,
            icon: self.icon@,
            description: self.description@,
            equipment_type: self.equipment_type,
            position: self.position,
            visible: self.visible,
            equiped: self.equiped,
        }
    }
}

impl Clone for Equipment {
    fn clone(&self) -> (r: Self)
        ensures
            r@ == self@,
    {
        Equipment {
            name: self.name.clone(),
            icon: self.icon.clone(),
            description: self.description.clone(),
            equipment_type: self.equipment_type,
            position: self.position,
            visible: self.visible,
            equiped: self.equiped,
        }
    }
}

impl Equipment {
    /// A freshly placed pickup: visible, not yet taken, described by the
    /// injected record for its type.
    pub fn new(data: &PickupData, equipment_type: EquipmentType, position: (usize, usize)) -> (r:
        Equipment)
        ensures
            r@ == (EquipmentView {
                name: data@.name,
                icon: data@.icon,
                description: data@.description,
                equipment_type,
                position,
                visible: true,
                equiped: false,
            }),
    {
        Equipment {
            name: data.name.clone(),
            icon: data.icon.clone(),
            description: data.description.clone(),
            equipment_type,
            position,
            visible: true,
            equiped: false,
        }
    }

    pub fn get_name(&self) -> (r: String)
        ensures
            r@ == self@.name,
    {
        self.name.clone()
    }

    pub fn get_icon(&self) -> (r: &str)
        ensures
            r@ == self@.icon,
    {
        self.icon.as_str()
    }

    pub fn get_description(&self) -> (r: String)
        ensures
            r@ == self@.description,
    {
        self.description.clone()
    }

    pub fn get_position(&self) -> (r: (usize, usize))
        ensures
            r == self@.position,
    {
        self.position
    }

    pub fn get_type(&self) -> (r: EquipmentType)
        ensures
            r == self@.equipment_type,
    {
        self.equipment_type
    }

    /// A uniformly random equipment type.
    pub fn random() -> EquipmentType {
        match crate::rng::rand_below(6) {
            0 => EquipmentType::Hat,
            1 => EquipmentType::Glasses,
            2 => EquipmentType::Vest,
            3 => EquipmentType::Pants,
            4 => EquipmentType::Whip,
            5 => EquipmentType::Shoes,
            _ => EquipmentType::Pants,
        }
    }

    pub fn is_visible(&self) -> (r: bool)
        ensures
            r == self@.visible,
    {
        self.visible
    }

    pub fn set_visible(&mut self, visible: bool)
        ensures
            final(self)@ == (EquipmentView { visible, ..old(self)@ }),
    {
        self.visible = visible;
    }

    pub fn is_equiped(&self) -> (r: bool)
        ensures
            r == self@.equiped,
    {
        self.equiped
    }

    pub fn set_equiped(&mut self, equiped: bool)
        ensures
            final(self)@ == (EquipmentView { equiped, ..old(self)@ }),
    {
        self.equiped = equiped;
    }
}

/// Insertion-ordered registry of equipment pickups. Entries are never
/// removed: a taken pickup is only marked invisible and equiped.
pub struct EquipmentManager {
    equipments: Vec<Equipment>,
}

impl View for EquipmentManager {
    type V = Seq<EquipmentView>;

    closed spec fn view(&self) -> Seq<EquipmentView> {
        views(self.equipments@)
    }
}

impl EquipmentManager {
    pub fn new() -> (r: EquipmentManager)
        ensures
            r@ == Seq::<EquipmentView>::empty(),
    {
        let r = EquipmentManager { equipments: Vec::new() };
        proof {
            assert(r@ =~= Seq::<EquipmentView>::empty());
        }
        r
    }

    pub fn add(&mut self, equipment: Equipment)
        ensures
            final(self)@ == old(self)@.push(equipment@),
    {
        proof {
            lemma_views_push(self.equipments@, equipment);
        }
        self.equipments.push(equipment);
    }

    pub fn len(&self) -> (r: usize)
        ensures
            r == self@.len(),
    {
        self.equipments.len()
    }

    pub fn get(&self, i: usize) -> (r: &Equipment)
        requires
            i < self@.len(),
        ensures
            r@ == self@[i as int],
    {
        &self.equipments[i]
    }

    /// All entries within Chebyshev distance `range` of `position`, in
    /// insertion order.
    pub fn within_range(&self, position: (usize, usize), range: usize) -> (r: Vec<Equipment>)
        ensures
            views(r@) == self@.filter(
                |e: EquipmentView| chebyshev_within(e.position, position, range),
            ),
    {
        let ghost pred = |e: EquipmentView| chebyshev_within(e.position, position, range);
        let mut r: Vec<Equipment> = Vec::new();
        let n = self.equipments.len();
        let mut i: usize = 0;
        proof {
            assert(views(r@) =~= Seq::<EquipmentView>::empty());
            assert(self@.take(0) =~= Seq::<EquipmentView>::empty());
            assert(Seq::<EquipmentView>::empty().filter(pred) =~= Seq::<EquipmentView>::empty())
                by {
                reveal(Seq::filter);
            }
        }
        while i < n
            invariant
                n == self.equipments@.len(),
                self@.len() == n,
                i <= n,
                pred == (|e: EquipmentView| chebyshev_within(e.position, position, range)),
                views(r@) == self@.take(i as int).filter(pred),
            decreases n - i,
        {
            proof {
                assert(self@.take(i + 1).drop_last() =~= self@.take(i as int));
                assert(self@.take(i + 1) =~= self@.take(i as int).push(self@[i as int]));
                lemma_filter_push(self@.take(i as int), self@[i as int], pred);
            }
            let e = &self.equipments[i];
            assert(e@ == self@[i as int]);
            if chebyshev_check(e.position, position, range) {
                let c = e.clone();
                proof {
                    lemma_views_push(r@, c);
                }
                r.push(c);
            }
            i = i + 1;
        }
        proof {
            assert(self@.take(n as int) =~= self@);
        }
        r
    }

    /// Whether some entry sits at exactly `position`.
    pub fn is_position_occupied(&self, position: (usize, usize)) -> (r: bool)
        ensures
            r == exists|i: int| 0 <= i < self@.len() && self@[i].position == position,
    {
        let n = self.equipments.len();
        let mut i: usize = 0;
        while i < n
            invariant
                n == self@.len(),
                i <= n,
                forall|j: int| 0 <= j < i ==> self@[j].position != position,
            decreases n - i,
        {
            let e = &self.equipments[i];
            if e.position.0 == position.0 && e.position.1 == position.1 {
                assert(self@[i as int].position == position);
                return true;
            }
            i = i + 1;
        }
        false
    }

    /// The index of the first entry at `position`, if any.
    pub fn find_at(&self, position: (usize, usize)) -> (r: Option<usize>)
        ensures
            match r {
                Some(i) => {
                    &&& 0 <= i < self@.len()
                    &&& self@[i as int].position == position
                    &&& forall|j: int| 0 <= j < i ==> self@[j].position != position
                },
                None => forall|j: int| 0 <= j < self@.len() ==> self@[j].position != position,
            },
    {
        let n = self.equipments.len();
        let mut i: usize = 0;
        while i < n
            invariant
                n == self@.len(),
                i <= n,
                forall|j: int| 0 <= j < i ==> self@[j].position != position,
            decreases n - i,
        {
            let e = &self.equipments[i];
            if e.position.0 == position.0 && e.position.1 == position.1 {
                return Some(i);
            }
            i = i + 1;
        }
        None
    }

    /// The first entry at `position`, mutably, in insertion order.
    pub fn get_mut(&mut self, position: (usize, usize)) -> (r: Option<&mut Equipment>)
        ensures
            match r {
                Some(e) => exists|i: int|
                    {
                        &&& 0 <= i < old(self)@.len()
                        &&& old(self)@[i].position == position
                        &&& (*e)@ == old(self)@[i]
                        &&& final(self)@ == old(self)@.update(i, (*final(e))@)
                    },
                None => {
                    &&& final(self)@ == old(self)@
                    &&& forall|j: int|
                        0 <= j < old(self)@.len() ==> old(self)@[j].position != position
                },
            },
    {
        let n = self.equipments.len();
        let mut i: usize = 0;
        while i < n
            invariant
                n == self.equipments@.len(),
                self.equipments@ == old(self).equipments@,
                i <= n,
                forall|j: int| 0 <= j < i ==> views(self.equipments@)[j].position != position,
            decreases n - i,
        {
            if self.equipments[i].position.0 == position.0 && self.equipments[i].position.1
                == position.1 {
                let ghost wi = i as int;
                let e = &mut self.equipments[i];
                proof {
                    assert(old(self)@[wi].position == position);
                    assert(views(after_borrow(self.equipments)@) =~= old(self)@.update(
                        wi,
                        (*final(e))@,
                    ));
                }
                return Some(e);
            }
            i = i + 1;
        }
        None
    }

    /// Marks the entry at index `i` visible or not.
    pub fn set_visible_at(&mut self, i: usize, visible: bool)
        requires
            i < old(self)@.len(),
        ensures
            final(self)@ == old(self)@.update(
                i as int,
                (EquipmentView { visible, ..old(self)@[i as int] }),
            ),
    {
        let e = &mut self.equipments[i];
        e.set_visible(visible);
        proof {
            assert(views(after_borrow(self.equipments)@) =~= old(self)@.update(
                i as int,
                (EquipmentView { visible, ..old(self)@[i as int] }),
            ));
        }
    }

    /// Marks the entry at index `i` taken or not.
    pub fn set_equiped_at(&mut self, i: usize, equiped: bool)
        requires
            i < old(self)@.len(),
        ensures
            final(self)@ == old(self)@.update(
                i as int,
                (EquipmentView { equiped, ..old(self)@[i as int] }),
            ),
    {
        let e = &mut self.equipments[i];
        e.set_equiped(equiped);
        proof {
            assert(views(after_borrow(self.equipments)@) =~= old(self)@.update(
                i as int,
                (EquipmentView { equiped, ..old(self)@[i as int] }),
            ));
        }
    }
}

} // verus!
