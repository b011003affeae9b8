//! Turn-based combat between the player and one monster. Each turn is one
//! decision: attack (the player strikes, and a surviving monster strikes
//! back), drink a potion, or flee when the encounter permits it. The
//! interactive loop that reads keys and prints the exchange lives with the
//! caller; the rules of a turn are all here.

use vstd::prelude::*;

verus! {

use crate::entity::{EntityTrait, EntityView};
use crate::item::ItemType;
use crate::monster::Monster;
use crate::player::{
    first_item_of_type,
    lemma_first_item_of_type,
    player_damage_applied,
    player_effective_attack,
    player_resist,
    Player,
    PlayerView,
};
use crate::fits_i32;

/// How one combat turn ended.
#[derive(Clone, Copy, Debug, PartialEq, Eq, Structural)]
pub enum CombatOutcome {
    Victory,
    Defeat,
    Fled,
    InProgress,
}

/// When one combat turn is free of arithmetic overflow.
pub open spec fn combat_turn_req(p: PlayerView, m: EntityView, action: char) -> bool {
    if action == 'a' {
        &&& player_effective_attack(p) <= i32::MAX
        &&& fits_i32(m.hp - player_effective_attack(p))
        &&& (m.hp - player_effective_attack(p) > 0 ==> {
            &&& i32::MIN + player_resist(p.equipments) <= m.atk
            &&& fits_i32(p.ent.hp - player_damage_applied(p.equipments, m.atk))
        })
    } else if action == 'p' {
        first_item_of_type(p.items, ItemType::HealingPotion) >= 0 ==> fits_i32(p.ent.hp + 20)
    } else {
        true
    }
}

/// The player, the monster and the verdict after one combat turn.
///
/// On `a` the player strikes at effective attack; a monster left at zero or
/// below is beaten, otherwise it strikes back through the player's
/// resistance and a dead player loses. On `p` the first healing potion, if
/// any, is drunk for 20 health. On `f` the encounter ends only when fleeing
/// is permitted. Anything else changes nothing.
pub open spec fn combat_turn_spec(can_flee: bool, p: PlayerView, m: EntityView, action: char) -> (
    PlayerView,
    EntityView,
    CombatOutcome,
) {
    if action == 'a' {
        let m2 = EntityView { hp: m.hp - player_effective_attack(p), ..m };
        if m2.hp <= 0 {
            (p, m2, CombatOutcome::Victory)
        } else {
            let p2 = PlayerView {
                ent: EntityView {
                    hp: p.ent.hp - player_damage_applied(p.equipments, m.atk),
                    ..p.ent
                },
                ..p
            };
            if p2.ent.hp <= 0 {
                (p2, m2, CombatOutcome::Defeat)
            } else {
                (p2, m2, CombatOutcome::InProgress)
            }
        }
    } else if action == 'p' {
        let j = first_item_of_type(p.items, ItemType::HealingPotion);
        if j >= 0 {
            let p2 = PlayerView {
                items: p.items.remove(j),
                ent: EntityView { hp: p.ent.hp + 20, ..p.ent },
                ..p
            };
            (p2, m, CombatOutcome::InProgress)
        } else {
            (p, m, CombatOutcome::InProgress)
        }
    } else if action == 'f' {
        if can_flee {
            (p, m, CombatOutcome::Fled)
        } else {
            (p, m, CombatOutcome::InProgress)
        }
    } else {
        (p, m, CombatOutcome::InProgress)
    }
}

/// Plays one combat turn for the chosen `action`.
pub fn combat_turn(can_flee: bool, player: &mut Player, monster: &mut Monster, action: char) -> (r:
    CombatOutcome)
    requires
        combat_turn_req(old(player)@, old(monster)@, action),
    ensures
        (final(player)@, final(monster)@, r) == combat_turn_spec(
            can_flee,
            old(player)@,
            old(monster)@,
            action,
        ),
{
    proof {
        lemma_first_item_of_type(old(player)@.items, ItemType::HealingPotion);
    }
    match action {
        'a' => {
            player.attack(monster);
            if monster.is_dead() {
                return CombatOutcome::Victory;
            }
            monster.attack(player);
            if player.is_dead() {
                return CombatOutcome::Defeat;
            }
            CombatOutcome::InProgress
        },
        'p' => {
            player.use_item(ItemType::HealingPotion);
            CombatOutcome::InProgress
        },
        'f' => {
            if can_flee {
                CombatOutcome::Fled
            } else {
                CombatOutcome::InProgress
            }
        },
        _ => CombatOutcome::InProgress,
    }
}

} // verus!
