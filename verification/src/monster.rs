//! Monsters: species-driven actors spawned into the maze, and the registry
//! that the AI step iterates over. A defeated monster is never removed, only
//! marked invisible and inert.

use vstd::prelude::*;

verus! {

use crate::data::{EntityData, EntityDataView, GameData};
use crate::entity::{Entity, EntityTrait, EntityType, EntityView};
use crate::player::Player;
use crate::{chebyshev_check, chebyshev_within, fits_i32, lemma_filter_push, lemma_views_push,
    views};

#[derive(Clone, Copy, Debug, PartialEq, Eq, Structural)]
pub enum MonsterType {
    Player,
    Dino,
    Turkey,
    Boar,
    Snail,
    Mosquito,
    Dragon,
    Whale,
}

pub struct Monster {
    base: Entity,
}

impl View for Monster {
    type V = EntityView;

    closed spec fn view(&self) -> EntityView {
        self.base@
    }
}

impl Clone for Monster {
    fn clone(&self) -> (r: Self)
        ensures
            r@ == self@,
    {
        Monster { base: self.base.clone() }
    }
}

/// The entity a monster starts as, given its species record.
pub open spec fn monster_view_of(d: EntityDataView, position: (usize, usize)) -> EntityView {
    EntityView {
        name: d.name,
        icon: d.icon,
        description: d.description,
        entity_type: EntityType::Monster,
        hp: d.hp,
        atk: d.atk,
        position,
        visible: true,
    }
}

/// A monster of a species drawn at random from the spawn table: dragons and
/// dinos are rare, snails common.
pub fn get_random_monster(data: &GameData, position: (usize, usize)) -> (r: Monster)
    ensures
        exists|t: MonsterType|
            t != MonsterType::Player && r@ == monster_view_of(data@.monster(t), position),
{
    let roll = crate::rng::rand_below(100);
    let r = if roll <= 7 {
        Monster::new(data.monster_data(MonsterType::Dragon), position)
    } else if roll <= 15 {
        Monster::new(data.monster_data(MonsterType::Dino), position)
    } else if roll <= 30 {
        Monster::new(data.monster_data(MonsterType::Whale), position)
    } else if roll <= 45 {
        Monster::new(data.monster_data(MonsterType::Mosquito), position)
    } else if roll <= 60 {
        Monster::new(data.monster_data(MonsterType::Boar), position)
    } else if roll <= 75 {
        Monster::new(data.monster_data(MonsterType::Turkey), position)
    } else {
        Monster::new(data.monster_data(MonsterType::Snail), position)
    };
    proof {
        if roll <= 7 {
            assert(r@ == monster_view_of(data@.monster(MonsterType::Dragon), position));
        } else if roll <= 15 {
            assert(r@ == monster_view_of(data@.monster(MonsterType::Dino), position));
        } else if roll <= 30 {
            assert(r@ == monster_view_of(data@.monster(MonsterType::Whale), position));
        } else if roll <= 45 {
            assert(r@ == monster_view_of(data@.monster(MonsterType::Mosquito), position));
        } else if roll <= 60 {
            assert(r@ == monster_view_of(data@.monster(MonsterType::Boar), position));
        } else if roll <= 75 {
            assert(r@ == monster_view_of(data@.monster(MonsterType::Turkey), position));
        } else {
            assert(r@ == monster_view_of(data@.monster(MonsterType::Snail), position));
        }
    }
    r
}

impl Monster {
    /// A monster built from its species record, placed at `position`.
    pub fn new(data: &EntityData, position: (usize, usize)) -> (r: Monster)
        ensures
            r@ == monster_view_of(data@, position),
    {
        Monster {
            base: Entity {
                name: data.name.clone(),
                icon: data.icon.clone(),
                description: data.description.clone(),
                entity_type: EntityType::Monster,
                hp: data.hp,
                atk: data.atk,
                position,
                visible: true,
            },
        }
    }

    /// One monster hit on the player: raw damage is the monster's attack,
    /// and the player's equipment resistance applies.
    pub fn attack(&self, target: &mut Player)
        requires
            old(target).take_damage_req(self@.atk),
        ensures
            final(target).ent() == (EntityView {
                hp: old(target).ent().hp - old(target).damage_applied(self@.atk),
                ..old(target).ent()
            }),
            final(target).aux() == old(target).aux(),
    {
        target.take_damage(self.base.atk);
    }
}

impl EntityTrait for Monster {
    type Aux = ();

    open spec fn ent(&self) -> EntityView {
        self@
    }

    open spec fn aux(&self) -> () {
        ()
    }

    open spec fn damage_applied(&self, damage: int) -> int {
        damage
    }

    open spec fn take_damage_req(&self, damage: int) -> bool {
        fits_i32(self@.hp - damage)
    }

    open spec fn effective_attack(&self) -> int {
        self@.atk
    }

    open spec fn attack_fits(&self) -> bool {
        true
    }

    fn get_name(&self) -> (r: String) {
        self.base.name.clone()
    }

    fn get_icon(&self) -> (r: &str) {
        self.base.get_icon()
    }

    fn get_description(&self) -> (r: String) {
        self.base.description.clone()
    }

    fn get_attack(&self) -> (r: i32) {
        self.base.atk
    }

    fn get_health(&self) -> (r: i32) {
        self.base.hp
    }

    fn get_position(&self) -> (r: (usize, usize)) {
        self.base.position
    }

    fn get_type(&self) -> (r: EntityType) {
        self.base.entity_type
    }

    fn is_visible(&self) -> (r: bool) {
        self.base.visible
    }

    fn set_visible(&mut self, visible: bool) {
        self.base.set_visible(visible);
    }

    fn set_position(&mut self, position: (usize, usize)) {
        self.base.position = position;
    }

    fn heal(&mut self, heal: i32) {
        self.base.heal(heal);
    }

    fn buff_attack(&mut self, buff: i32) {
        self.base.buff_attack(buff);
    }

    fn take_damage(&mut self, damage: i32) {
        self.base.take_damage(damage);
    }

    fn is_dead(&self) -> (r: bool) {
        self.base.is_dead()
    }
}

/// Insertion-ordered registry of every monster spawned this session.
pub struct MonsterManager {
    monsters: Vec<Monster>,
}

impl View for MonsterManager {
    type V = Seq<EntityView>;

    closed spec fn view(&self) -> Seq<EntityView> {
        views(self.monsters@)
    }
}

impl MonsterManager {
    pub fn new() -> (r: MonsterManager)
        ensures
            r@ == Seq::<EntityView>::empty(),
    {
        let r = MonsterManager { monsters: Vec::new() };
        proof {
            assert(r@ =~= Seq::<EntityView>::empty());
        }
        r
    }

    pub fn add(&mut self, monster: Monster)
        ensures
            final(self)@ == old(self)@.push(monster@),
    {
        proof {
            lemma_views_push(self.monsters@, monster);
        }
        self.monsters.push(monster);
    }

    pub fn len(&self) -> (r: usize)
        ensures
            r == self@.len(),
    {
        self.monsters.len()
    }

    pub fn get(&self, i: usize) -> (r: &Monster)
        requires
            i < self@.len(),
        ensures
            r@ == self@[i as int],
    {
        &self.monsters[i]
    }

    /// All entries within Chebyshev distance `range` of `position`, in
    /// insertion order.
    pub fn within_range(&self, position: (usize, usize), range: usize) -> (r: Vec<Monster>)
        ensures
            views(r@) == self@.filter(
                |e: EntityView| chebyshev_within(e.position, position, range),
            ),
    {
        let ghost pred = |e: EntityView| chebyshev_within(e.position, position, range);
        let mut r: Vec<Monster> = Vec::new();
        let n = self.monsters.len();
        let mut i: usize = 0;
        proof {
            assert(views(r@) =~= Seq::<EntityView>::empty());
            assert(self@.take(0) =~= Seq::<EntityView>::empty());
            assert(Seq::<EntityView>::empty().filter(pred) =~= Seq::<EntityView>::empty()) by {
                reveal(Seq::filter);
            }
        }
        while i < n
            invariant
                n == self.monsters@.len(),
                self@.len() == n,
                i <= n,
                pred == (|e: EntityView| chebyshev_within(e.position, position, range)),
                views(r@) == self@.take(i as int).filter(pred),
            decreases n - i,
        {
            proof {
                assert(self@.take(i + 1).drop_last() =~= self@.take(i as int));
                assert(self@.take(i + 1) =~= self@.take(i as int).push(self@[i as int]));
                lemma_filter_push(self@.take(i as int), self@[i as int], pred);
            }
            let e = &self.monsters[i];
            assert(e@ == self@[i as int]);
            if chebyshev_check(e.base.position, position, range) {
                let c = e.clone();
                proof {
                    lemma_views_push(r@, c);
                }
                r.push(c);
            }
            i = i + 1;
        }
        proof {
            assert(self@.take(n as int) =~= self@);
        }
        r
    }

    /// Whether some entry sits at exactly `position`.
    pub fn is_position_occupied(&self, position: (usize, usize)) -> (r: bool)
        ensures
            r == exists|i: int| 0 <= i < self@.len() && self@[i].position == position,
    {
        let n = self.monsters.len();
        let mut i: usize = 0;
        while i < n
            invariant
                n == self@.len(),
                i <= n,
                forall|j: int| 0 <= j < i ==> self@[j].position != position,
            decreases n - i,
        {
            let e = &self.monsters[i];
            if e.base.position.0 == position.0 && e.base.position.1 == position.1 {
                assert(self@[i as int].position == position);
                return true;
            }
            i = i + 1;
        }
        false
    }

    /// The first entry at `position`, mutably, in insertion order.
    pub fn get_mut(&mut self, position: (usize, usize)) -> (r: Option<&mut Monster>)
        ensures
            match r {
                Some(e) => exists|i: int|
                    {
                        &&& 0 <= i < old(self)@.len()
                        &&& old(self)@[i].position == position
                        &&& (*e)@ == old(self)@[i]
                        &&& final(self)@ == old(self)@.update(i, (*final(e))@)
                    },
                None => {
                    &&& final(self)@ == old(self)@
                    &&& forall|j: int|
                        0 <= j < old(self)@.len() ==> old(self)@[j].position != position
                },
            },
    {
        let n = self.monsters.len();
        let mut i: usize = 0;
        while i < n
            invariant
                n == self.monsters@.len(),
                self.monsters@ == old(self).monsters@,
                i <= n,
                forall|j: int| 0 <= j < i ==> views(self.monsters@)[j].position != position,
            decreases n - i,
        {
            if self.monsters[i].base.position.0 == position.0 && self.monsters[i].base.position.1
                == position.1 {
                let ghost wi = i as int;
                let e = &mut self.monsters[i];
                proof {
                    assert(old(self)@[wi].position == position);
                    assert(views(after_borrow(self.monsters)@) =~= old(self)@.update(
                        wi,
                        (*final(e))@,
                    ));
                }
                return Some(e);
            }
            i = i + 1;
        }
        None
    }

    /// Every monster at once, mutably: what the AI step iterates over.
    pub fn get_all_mut(&mut self) -> (r: &mut Vec<Monster>)
        ensures
            views((*r)@) == old(self)@,
            final(self)@ == views((*final(r))@),
    {
        &mut self.monsters
    }

    /// The monster at index `i`, mutably.
    pub fn get_mut_at(&mut self, i: usize) -> (r: &mut Monster)
        requires
            i < old(self)@.len(),
        ensures
            (*r)@ == old(self)@[i as int],
            final(self)@ == old(self)@.update(i as int, (*final(r))@),
    {
        let ghost wi = i as int;
        let e = &mut self.monsters[i];
        proof {
            assert(views(after_borrow(self.monsters)@) =~= old(self)@.update(wi, (*final(e))@));
        }
        e
    }

    /// Moves the entry at index `i` to `position`.
    pub fn set_position_at(&mut self, i: usize, position: (usize, usize))
        requires
            i < old(self)@.len(),
        ensures
            final(self)@ == old(self)@.update(
                i as int,
                (EntityView { position, ..old(self)@[i as int] }),
            ),
    {
        let e = &mut self.monsters[i];
        e.set_position(position);
        proof {
            assert(views(after_borrow(self.monsters)@) =~= old(self)@.update(
                i as int,
                (EntityView { position, ..old(self)@[i as int] }),
            ));
        }
    }

    /// Marks the entry at index `i` visible or not.
    pub fn set_visible_at(&mut self, i: usize, visible: bool)
        requires
            i < old(self)@.len(),
        ensures
            final(self)@ == old(self)@.update(
                i as int,
                (EntityView { visible, ..old(self)@[i as int] }),
            ),
    {
        let e = &mut self.monsters[i];
        e.set_visible(visible);
        proof {
            assert(views(after_borrow(self.monsters)@) =~= old(self)@.update(
                i as int,
                (EntityView { visible, ..old(self)@[i as int] }),
            ));
        }
    }
}

} // verus!
