//! The stat-bearing base shared by every actor: name, icon, description,
//! health, attack, position and a visibility flag, together with the
//! [`EntityTrait`] interface that the player and the monsters implement.

use vstd::prelude::*;

verus! {

use crate::fits_i32;

#[derive(Clone, Copy, Debug, PartialEq, Eq, Structural)]
pub enum EntityType {
    Player,
    Monster,
}

/// The mathematical value of an entity: every field an actor exposes.
pub ghost struct EntityView {
    pub name: Seq<char>,
    pub icon: Seq<char>,
    pub description: Seq<char>,
    pub entity_type: EntityType,
    pub hp: int,
    pub atk: int,
    pub position: (usize, usize),
    pub visible: bool,
}

pub struct Entity {
    pub name: String,
    pub icon: String,
    pub description: String,
    pub entity_type: EntityType,
    pub hp: i32,
    pub atk: i32,
    pub position: (usize, usize),
    pub visible: bool,
}

impl View for Entity {
    type V = EntityView;

    open spec fn view(&self) -> EntityView {
        EntityView {
            name: self.name@,
            icon: self.icon@,
            description: self.description@,
            entity_type: self.entity_type,
            hp: self.hp as int,
            atk: self.atk as int,
            position: self.position,
            visible: self.visible,
        }
    }
}

impl Clone for Entity {
    fn clone(&self) -> (r: Self)
        ensures
            r@ == self@,
    {
        Entity {
            name: self.name.clone(),
            icon: self.icon.clone(),
            description: self.description.clone(),
            entity_type: self.entity_type,
            hp: self.hp,
            atk: self.atk,
            position: self.position,
            visible: self.visible,
        }
    }
}

/// The common interface of stat-bearing actors.
///
/// `ent` gives the entity-visible state; `aux` gives whatever further state a
/// concrete actor carries (the player's inventory, for instance), so that the
/// mutators can promise they leave it alone. `damage_applied` is the actor's
/// own damage rule: the base entity takes a hit at face value, while the
/// player subtracts equipment resistance and never heals from a hit.
pub trait EntityTrait: Sized {
    type Aux;

    spec fn ent(&self) -> EntityView;

    spec fn aux(&self) -> Self::Aux;

    /// How much health a hit of `damage` actually removes.
    spec fn damage_applied(&self, damage: int) -> int;

    /// When the exec `take_damage` is free of arithmetic overflow.
    spec fn take_damage_req(&self, damage: int) -> bool;

    /// The attack value `get_attack` reports (the player adds a Whip bonus).
    spec fn effective_attack(&self) -> int;

    /// When the exec `get_attack` is free of arithmetic overflow.
    spec fn attack_fits(&self) -> bool;

    fn get_name(&self) -> (r: String)
        ensures
            r@ == self.ent().name,
    ;

    fn get_icon(&self) -> (r: &str)
        ensures
            r@ == self.ent().icon,
    ;

    fn get_description(&self) -> (r: String)
        ensures
            r@ == self.ent().description,
    ;

    fn get_attack(&self) -> (r: i32)
        requires
            self.attack_fits(),
        ensures
            r as int == self.effective_attack(),
    ;

    fn get_health(&self) -> (r: i32)
        ensures
            r as int == self.ent().hp,
    ;

    fn get_position(&self) -> (r: (usize, usize))
        ensures
            r == self.ent().position,
    ;

    fn get_type(&self) -> (r: EntityType)
        ensures
            r == self.ent().entity_type,
    ;

    fn is_visible(&self) -> (r: bool)
        ensures
            r == self.ent().visible,
    ;

    fn set_visible(&mut self, visible: bool)
        ensures
            final(self).ent() == (EntityView { visible, ..old(self).ent() }),
            final(self).aux() == old(self).aux(),
    ;

    fn set_position(&mut self, position: (usize, usize))
        ensures
            final(self).ent() == (EntityView { position, ..old(self).ent() }),
            final(self).aux() == old(self).aux(),
    ;

    fn heal(&mut self, heal: i32)
        requires
            fits_i32(old(self).ent().hp + heal),
        ensures
            final(self).ent() == (EntityView { hp: old(self).ent().hp + heal, ..old(self).ent() }),
            final(self).aux() == old(self).aux(),
    ;

    fn buff_attack(&mut self, buff: i32)
        requires
            fits_i32(old(self).ent().atk + buff),
        ensures
            final(self).ent() == (EntityView { atk: old(self).ent().atk + buff, ..old(self).ent() }),
            final(self).aux() == old(self).aux(),
    ;

    fn take_damage(&mut self, damage: i32)
        requires
            old(self).take_damage_req(damage as int),
        ensures
            final(self).ent() == (EntityView {
                hp: old(self).ent().hp - old(self).damage_applied(damage as int),
                ..old(self).ent()
            }),
            final(self).aux() == old(self).aux(),
            final(self).damage_applied(damage as int) == old(self).damage_applied(damage as int),
    ;

    fn is_dead(&self) -> (r: bool)
        ensures
            r == (self.ent().hp <= 0),
    ;
}

impl EntityTrait for Entity {
    type Aux = ();

    open spec fn ent(&self) -> EntityView {
        self@
    }

    open spec fn aux(&self) -> () {
        ()
    }

    open spec fn damage_applied(&self, damage: int) -> int {
        damage
    }

    open spec fn take_damage_req(&self, damage: int) -> bool {
        fits_i32(self@.hp - damage)
    }

    open spec fn effective_attack(&self) -> int {
        self@.atk
    }

    open spec fn attack_fits(&self) -> bool {
        true
    }

    fn get_name(&self) -> (r: String) {
        self.name.clone()
    }

    fn get_icon(&self) -> (r: &str) {
        self.icon.as_str()
    }

    fn get_description(&self) -> (r: String) {
        self.description.clone()
    }

    fn get_attack(&self) -> (r: i32) {
        self.atk
    }

    fn get_health(&self) -> (r: i32) {
        self.hp
    }

    fn get_position(&self) -> (r: (usize, usize)) {
        self.position
    }

    fn get_type(&self) -> (r: EntityType) {
        self.entity_type
    }

    fn is_visible(&self) -> (r: bool) {
        self.visible
    }

    fn set_visible(&mut self, visible: bool) {
        self.visible = visible;
    }

    fn set_position(&mut self, position: (usize, usize)) {
        self.position = position;
    }

    fn heal(&mut self, heal: i32) {
        self.hp = self.hp + heal;
    }

    fn buff_attack(&mut self, buff: i32) {
        self.atk = self.atk + buff;
    }

    fn take_damage(&mut self, damage: i32) {
        self.hp = self.hp - damage;
    }

    fn is_dead(&self) -> (r: bool) {
        self.hp <= 0
    }
}

} // verus!
