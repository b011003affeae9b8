//! The player: an entity plus an inventory of equipment and consumable
//! items and a sight range. Equipment changes the derived stats: a Whip adds
//! 20 attack, a Vest and Pants absorb 20 and 10 points of incoming damage,
//! and the damage actually applied never drops below zero.

use vstd::prelude::*;

verus! {

use crate::data::EntityData;
use crate::entity::{Entity, EntityTrait, EntityType, EntityView};
use crate::equipment::{Equipment, EquipmentType, EquipmentView};
use crate::item::{Item, ItemType, ItemView};
use crate::monster::Monster;
use crate::{fits_i32, lemma_views_push, views};

/// The mathematical value of the player.
pub ghost struct PlayerView {
    pub ent: EntityView,
    pub equipments: Seq<EquipmentView>,
    pub items: Seq<ItemView>,
    pub range: usize,
}

/// Whether the equipment list holds a piece of type `t`.
pub open spec fn has_equip(eqs: Seq<EquipmentView>, t: EquipmentType) -> bool {
    exists|i: int| 0 <= i < eqs.len() && eqs[i].equipment_type == t
}

/// The total damage resistance the equipment grants.
pub open spec fn player_resist(eqs: Seq<EquipmentView>) -> int {
    (if has_equip(eqs, EquipmentType::Vest) {
        20int
    } else {
        0int
    }) + (if has_equip(eqs, EquipmentType::Pants) {
        10int
    } else {
        0int
    })
}

/// Damage applied to the player after resistance, floored at zero: an attack
/// never heals.
pub open spec fn player_damage_applied(eqs: Seq<EquipmentView>, damage: int) -> int {
    if damage - player_resist(eqs) > 0 {
        damage - player_resist(eqs)
    } else {
        0
    }
}

/// The attack value the player strikes with: the base attack plus 20 once
/// a Whip is owned.
pub open spec fn player_effective_attack(p: PlayerView) -> int {
    if has_equip(p.equipments, EquipmentType::Whip) {
        p.ent.atk + 20
    } else {
        p.ent.atk
    }
}

/// The index of the first inventory item of type `t`, or -1 if none.
pub open spec fn first_item_of_type(items: Seq<ItemView>, t: ItemType) -> int
    decreases items.len(),
{
    if items.len() == 0 {
        -1
    } else if items[0].item_type == t {
        0
    } else {
        let r = first_item_of_type(items.drop_first(), t);
        if r < 0 {
            -1
        } else {
            r + 1
        }
    }
}

/// `first_item_of_type` names exactly the first item of its type.
pub proof fn lemma_first_item_of_type(items: Seq<ItemView>, t: ItemType)
    ensures
        first_item_of_type(items, t) == -1 ==> forall|j: int|
            0 <= j < items.len() ==> items[j].item_type != t,
        first_item_of_type(items, t) >= 0 ==> {
            &&& 0 <= first_item_of_type(items, t) < items.len()
            &&& items[first_item_of_type(items, t)].item_type == t
            &&& forall|j: int| 0 <= j < first_item_of_type(items, t) ==> items[j].item_type != t
        },
    decreases items.len(),
{
    if items.len() == 0 {
    } else if items[0].item_type == t {
    } else {
        let rest = items.drop_first();
        let r = first_item_of_type(rest, t);
        lemma_first_item_of_type(rest, t);
        if r == -1 {
            assert forall|j: int| 0 <= j < items.len() implies items[j].item_type != t by {
                if j > 0 {
                    assert(rest[j - 1] == items[j]);
                }
            }
        } else {
            assert(items[r + 1] == rest[r]);
            assert forall|j: int| 0 <= j < r + 1 implies items[j].item_type != t by {
                if j > 0 {
                    assert(rest[j - 1] == items[j]);
                }
            }
        }
    }
}

pub struct Player {
    base: Entity,
    equipments: Vec<Equipment>,
    items: Vec<Item>,
    range: usize,
}

impl View for Player {
    type V = PlayerView;

    closed spec fn view(&self) -> PlayerView {
        PlayerView {
            ent: self.base@,
            equipments: views(self.equipments@),
            items: views(self.items@),
            range: self.range,
        }
    }
}

impl Player {
    /// A fresh player built from the injected stat record, with an empty
    /// inventory and the default sight range of 2.
    pub fn new(data: &EntityData, position: (usize, usize)) -> (r: Player)
        ensures
            r@ == (PlayerView {
                ent: EntityView {
                    name: data@.name,
                    icon: data@.icon,
                    description: data@.description,
                    entity_type: EntityType::Monster,
                    hp: data@.hp,
                    atk: data@.atk,
                    position,
                    visible: true,
                },
                equipments: Seq::<EquipmentView>::empty(),
                items: Seq::<ItemView>::empty(),
                range: 2,
            }),
    {
        let r = Player {
            base: Entity {
                name: data.name.clone(),
                icon: data.icon.clone(),
                description: data.description.clone(),
                entity_type: EntityType::Monster,
                hp: data.hp,
                atk: data.atk,
                position,
                visible: true,
            },
            equipments: Vec::new(),
            items: Vec::new(),
            range: 2,
        };
        proof {
            assert(views(r.equipments@) =~= Seq::<EquipmentView>::empty());
            assert(views(r.items@) =~= Seq::<ItemView>::empty());
        }
        r
    }

    pub fn add_equipment(&mut self, equipment: Equipment)
        ensures
            final(self)@ == (PlayerView {
                equipments: old(self)@.equipments.push(equipment@),
                ..old(self)@
            }),
    {
        proof {
            lemma_views_push(self.equipments@, equipment);
        }
        self.equipments.push(equipment);
    }

    pub fn get_equipment(&self) -> (r: &Vec<Equipment>)
        ensures
            views(r@) == self@.equipments,
    {
        &self.equipments
    }

    pub fn get_items(&self) -> (r: &Vec<Item>)
        ensures
            views(r@) == self@.items,
    {
        &self.items
    }

    pub fn add_item(&mut self, item: Item)
        ensures
            final(self)@ == (PlayerView { items: old(self)@.items.push(item@), ..old(self)@ }),
    {
        proof {
            lemma_views_push(self.items@, item);
        }
        self.items.push(item);
    }

    /// Removes the first item of type `item_type`, if the inventory holds
    /// one; otherwise leaves the player unchanged.
    pub fn remove_item(&mut self, item_type: ItemType)
        ensures
            (forall|j: int|
                0 <= j < old(self)@.items.len() ==> old(self)@.items[j].item_type != item_type)
                ==> final(self)@ == old(self)@,
            (exists|j: int|
                0 <= j < old(self)@.items.len() && old(self)@.items[j].item_type == item_type)
                ==> exists|j: int|
                {
                    &&& 0 <= j < old(self)@.items.len()
                    &&& old(self)@.items[j].item_type == item_type
                    &&& forall|k: int| 0 <= k < j ==> old(self)@.items[k].item_type != item_type
                    &&& final(self)@ == (PlayerView {
                        items: old(self)@.items.remove(j),
                        ..old(self)@
                    })
                },
    {
        let n = self.items.len();
        let mut i: usize = 0;
        while i < n
            invariant
                n == self.items@.len(),
                self.items@ == old(self).items@,
                self@ == old(self)@,
                i <= n,
                forall|k: int| 0 <= k < i ==> views(self.items@)[k].item_type != item_type,
            decreases n - i,
        {
            if *self.items[i].get_type() == item_type {
                let ghost wi = i as int;
                proof {
                    assert(old(self)@.items[wi].item_type == item_type);
                }
                self.items.remove(i);
                proof {
                    assert(views(self.items@) =~= views(old(self).items@).remove(wi));
                    assert(self@ == (PlayerView {
                        items: old(self)@.items.remove(wi),
                        ..old(self)@
                    }));
                }
                return ;
            }
            i = i + 1;
        }
    }

    /// Uses the first item of type `item_type`, if any: a healing potion is
    /// removed from the inventory and restores 20 health.
    pub fn use_item(&mut self, item_type: ItemType)
        requires
            (exists|j: int|
                0 <= j < old(self)@.items.len() && old(self)@.items[j].item_type == item_type)
                ==> fits_i32(old(self)@.ent.hp + 20),
        ensures
            (forall|j: int|
                0 <= j < old(self)@.items.len() ==> old(self)@.items[j].item_type != item_type)
                ==> final(self)@ == old(self)@,
            (exists|j: int|
                0 <= j < old(self)@.items.len() && old(self)@.items[j].item_type == item_type)
                ==> exists|j: int|
                {
                    &&& 0 <= j < old(self)@.items.len()
                    &&& old(self)@.items[j].item_type == item_type
                    &&& forall|k: int| 0 <= k < j ==> old(self)@.items[k].item_type != item_type
                    &&& final(self)@ == (PlayerView {
                        items: old(self)@.items.remove(j),
                        ent: (EntityView { hp: old(self)@.ent.hp + 20, ..old(self)@.ent }),
                        ..old(self)@
                    })
                },
    {
        let n = self.items.len();
        let mut i: usize = 0;
        while i < n
            invariant
                n == self.items@.len(),
                self.items@ == old(self).items@,
                self@ == old(self)@,
                i <= n,
                forall|k: int| 0 <= k < i ==> views(self.items@)[k].item_type != item_type,
                (exists|j: int|
                    0 <= j < old(self)@.items.len() && old(self)@.items[j].item_type == item_type)
                    ==> fits_i32(old(self)@.ent.hp + 20),
            decreases n - i,
        {
            if *self.items[i].get_type() == item_type {
                let ghost wi = i as int;
                proof {
                    assert(old(self)@.items[wi].item_type == item_type);
                }
                match item_type {
                    ItemType::HealingPotion => {
                        self.items.remove(i);
                        self.base.heal(20);
                    },
                }
                proof {
                    assert(views(self.items@) =~= views(old(self).items@).remove(wi));
                    assert(self@ == (PlayerView {
                        items: old(self)@.items.remove(wi),
                        ent: (EntityView { hp: old(self)@.ent.hp + 20, ..old(self)@.ent }),
                        ..old(self)@
                    }));
                }
                return ;
            }
            i = i + 1;
        }
    }

    /// Whether the player owns a piece of equipment of type `equipment_type`.
    pub fn has_equipment(&self, equipment_type: EquipmentType) -> (r: bool)
        ensures
            r == has_equip(self@.equipments, equipment_type),
    {
        let n = self.equipments.len();
        let mut i: usize = 0;
        while i < n
            invariant
                n == self.equipments@.len(),
                i <= n,
                forall|k: int|
                    0 <= k < i ==> views(self.equipments@)[k].equipment_type != equipment_type,
            decreases n - i,
        {
            if self.equipments[i].get_type() == equipment_type {
                assert(self@.equipments[i as int].equipment_type == equipment_type);
                return true;
            }
            i = i + 1;
        }
        false
    }

    /// One player hit on a monster, at the player's effective attack value.
    pub fn attack(&self, target: &mut Monster)
        requires
            self.attack_fits(),
            fits_i32(old(target)@.hp - self.effective_attack()),
        ensures
            final(target)@ == (EntityView {
                hp: old(target)@.hp - self.effective_attack(),
                ..old(target)@
            }),
    {
        target.take_damage(self.get_attack());
    }

    pub fn set_range(&mut self, range: usize)
        ensures
            final(self)@ == (PlayerView { range, ..old(self)@ }),
    {
        self.range = range;
    }

    pub fn get_range(&self) -> (r: usize)
        ensures
            r == self@.range,
    {
        self.range
    }

    pub fn set_icon(&mut self, icon: &str)
        ensures
            final(self)@ == (PlayerView {
                ent: (EntityView { icon: icon@, ..old(self)@.ent }),
                ..old(self)@
            }),
    {
        self.base.icon = icon.to_owned();
    }

    /// Adds health without any cap: there is no maximum-hp concept.
    pub fn heal(&mut self, amount: i32)
        requires
            fits_i32(old(self)@.ent.hp + amount),
        ensures
            final(self)@ == (PlayerView {
                ent: (EntityView { hp: old(self)@.ent.hp + amount, ..old(self)@.ent }),
                ..old(self)@
            }),
    {
        self.base.heal(amount);
    }
}

impl EntityTrait for Player {
    type Aux = (Seq<EquipmentView>, Seq<ItemView>, usize);

    open spec fn ent(&self) -> EntityView {
        self@.ent
    }

    open spec fn aux(&self) -> (Seq<EquipmentView>, Seq<ItemView>, usize) {
        (self@.equipments, self@.items, self@.range)
    }

    open spec fn damage_applied(&self, damage: int) -> int {
        player_damage_applied(self@.equipments, damage)
    }

    open spec fn take_damage_req(&self, damage: int) -> bool {
        &&& i32::MIN + player_resist(self@.equipments) <= damage
        &&& fits_i32(self@.ent.hp - player_damage_applied(self@.equipments, damage))
    }

    open spec fn effective_attack(&self) -> int {
        player_effective_attack(self@)
    }

    open spec fn attack_fits(&self) -> bool {
        has_equip(self@.equipments, EquipmentType::Whip) ==> self@.ent.atk + 20 <= i32::MAX
    }

    fn get_name(&self) -> (r: String) {
        self.base.get_name()
    }

    fn get_icon(&self) -> (r: &str) {
        self.base.get_icon()
    }

    fn get_description(&self) -> (r: String) {
        self.base.get_description()
    }

    fn get_attack(&self) -> (r: i32) {
        if self.has_equipment(EquipmentType::Whip) {
            return self.base.atk + 20;
        }
        self.base.atk
    }

    fn get_health(&self) -> (r: i32) {
        self.base.hp
    }

    fn get_position(&self) -> (r: (usize, usize)) {
        self.base.get_position()
    }

    fn get_type(&self) -> (r: EntityType) {
        self.base.get_type()
    }

    fn is_visible(&self) -> (r: bool) {
        self.base.is_visible()
    }

    fn set_visible(&mut self, visible: bool) {
        self.base.set_visible(visible);
    }

    fn set_position(&mut self, position: (usize, usize)) {
        self.base.set_position(position);
    }

    fn heal(&mut self, heal: i32) {
        self.base.heal(heal);
    }

    fn buff_attack(&mut self, buff: i32) {
        self.base.buff_attack(buff);
    }

    fn take_damage(&mut self, damage: i32) {
        let mut resist: i32 = 0;
        if self.has_equipment(EquipmentType::Vest) {
            resist = resist + 20;
        }
        if self.has_equipment(EquipmentType::Pants) {
            resist = resist + 10;
        }
        if damage - resist > 0 {
            self.base.take_damage(damage - resist);
        }
    }

    fn is_dead(&self) -> (r: bool) {
        self.base.is_dead()
    }
}

/// The damage rule the player's `take_damage` follows: what reaches the
/// player is the raw damage minus resistance, floored at zero, so an attack
/// never increases health.
pub proof fn lemma_damage_floor(eqs: Seq<EquipmentView>, damage: int)
    ensures
        player_damage_applied(eqs, damage) == if damage - player_resist(eqs) > 0 {
            damage - player_resist(eqs)
        } else {
            0
        },
        player_damage_applied(eqs, damage) >= 0,
{
}

} // verus!
