//! Injected configuration records.
//!
//! The stat tables live in data files keyed by species or pickup type;
//! loading and parsing them is the caller's business. The engine only
//! consumes complete, already-validated records: one [`EntityData`] per actor
//! species and one [`PickupData`] per item or equipment type, gathered in a
//! [`GameData`] table. A missing key is therefore a startup failure of the
//! loader, never a state this crate can be in.

use vstd::prelude::*;

verus! {

use crate::equipment::EquipmentType;
use crate::item::ItemType;
use crate::monster::MonsterType;

/// A stat record for an actor species.
pub struct EntityData {
    pub name: String,
    pub icon: String,
    pub description: String,
    pub hp: i32,
    pub atk: i32,
}

pub ghost struct EntityDataView {
    pub name: Seq<char>,
    pub icon: Seq<char>,
    pub description: Seq<char>,
    pub hp: int,
    pub atk: int,
}

impl View for EntityData {
    type V = EntityDataView;

    open spec fn view(&self) -> EntityDataView {
        EntityDataView {
            name: self.name@,
            icon: self.icon@,
            description: self.description@,
            hp: self.hp as int,
            atk: self.atk as int,
        }
    }
}

impl Clone for EntityData {
    fn clone(&self) -> (r: Self)
        ensures
            r@ == self@,
    {
        EntityData {
            name: self.name.clone(),
            icon: self.icon.clone(),
            description: self.description.clone(),
            hp: self.hp,
            atk: self.atk,
        }
    }
}

/// A descriptive record for an item or equipment type.
pub struct PickupData {
    pub name: String,
    pub icon: String,
    pub description: String,
}

pub ghost struct PickupDataView {
    pub name: Seq<char>,
    pub icon: Seq<char>,
    pub description: Seq<char>,
}

impl View for PickupData {
    type V = PickupDataView;

    open spec fn view(&self) -> PickupDataView {
        PickupDataView { name: self.name@, icon: self.icon@, description: self.description@ }
    }
}

impl Clone for PickupData {
    fn clone(&self) -> (r: Self)
        ensures
            r@ == self@,
    {
        PickupData {
            name: self.name.clone(),
            icon: self.icon.clone(),
            description: self.description.clone(),
        }
    }
}

/// The complete configuration table: one record per key the engine can ask
/// for, so every lookup is total.
pub struct GameData {
    pub player: EntityData,
    pub dino: EntityData,
    pub turkey: EntityData,
    pub boar: EntityData,
    pub snail: EntityData,
    pub mosquito: EntityData,
    pub dragon: EntityData,
    pub whale: EntityData,
    pub healing_potion: PickupData,
    pub hat: PickupData,
    pub glasses: PickupData,
    pub vest: PickupData,
    pub pants: PickupData,
    pub whip: PickupData,
    pub shoes: PickupData,
}

pub ghost struct GameDataView {
    pub player: EntityDataView,
    pub dino: EntityDataView,
    pub turkey: EntityDataView,
    pub boar: EntityDataView,
    pub snail: EntityDataView,
    pub mosquito: EntityDataView,
    pub dragon: EntityDataView,
    pub whale: EntityDataView,
    pub healing_potion: PickupDataView,
    pub hat: PickupDataView,
    pub glasses: PickupDataView,
    pub vest: PickupDataView,
    pub pants: PickupDataView,
    pub whip: PickupDataView,
    pub shoes: PickupDataView,
}

impl View for GameData {
    type V = GameDataView;

    open spec fn view(&self) -> GameDataView {
        GameDataView {
            player: self.player@,
            dino: self.dino@,
            turkey: self.turkey@,
            boar: self.boar@,
            snail: self.snail@,
            mosquito: self.mosquito@,
            dragon: self.dragon@,
            whale: self.whale@,
            healing_potion: self.healing_potion@,
            hat: self.hat@,
            glasses: self.glasses@,
            vest: self.vest@,
            pants: self.pants@,
            whip: self.whip@,
            shoes: self.shoes@,
        }
    }
}

impl GameDataView {
    /// The stat record for a monster species. The player species maps to the
    /// player record.
    pub open spec fn monster(self, t: MonsterType) -> EntityDataView {
        match t {
            MonsterType::Player => self.player,
            MonsterType::Dino => self.dino,
            MonsterType::Turkey => self.turkey,
            MonsterType::Boar => self.boar,
            MonsterType::Snail => self.snail,
            MonsterType::Mosquito => self.mosquito,
            MonsterType::Dragon => self.dragon,
            MonsterType::Whale => self.whale,
        }
    }

    pub open spec fn equipment(self, t: EquipmentType) -> PickupDataView {
        match t {
            EquipmentType::Hat => self.hat,
            EquipmentType::Glasses => self.glasses,
            EquipmentType::Vest => self.vest,
            EquipmentType::Pants => self.pants,
            EquipmentType::Whip => self.whip,
            EquipmentType::Shoes => self.shoes,
        }
    }

    pub open spec fn item(self, t: ItemType) -> PickupDataView {
        match t {
            ItemType::HealingPotion => self.healing_potion,
        }
    }
}

impl GameData {
    pub fn monster_data(&self, t: MonsterType) -> (r: &EntityData)
        ensures
            r@ == self@.monster(t),
    {
        match t {
            MonsterType::Player => &self.player,
            MonsterType::Dino => &self.dino,
            MonsterType::Turkey => &self.turkey,
            MonsterType::Boar => &self.boar,
            MonsterType::Snail => &self.snail,
            MonsterType::Mosquito => &self.mosquito,
            MonsterType::Dragon => &self.dragon,
            MonsterType::Whale => &self.whale,
        }
    }

    pub fn equipment_data(&self, t: EquipmentType) -> (r: &PickupData)
        ensures
            r@ == self@.equipment(t),
    {
        match t {
            EquipmentType::Hat => &self.hat,
            EquipmentType::Glasses => &self.glasses,
            EquipmentType::Vest => &self.vest,
            EquipmentType::Pants => &self.pants,
            EquipmentType::Whip => &self.whip,
            EquipmentType::Shoes => &self.shoes,
        }
    }

    pub fn item_data(&self, t: ItemType) -> (r: &PickupData)
        ensures
            r@ == self@.item(t),
    {
        match t {
            ItemType::HealingPotion => &self.healing_potion,
        }
    }
}

} // verus!
