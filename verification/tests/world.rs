use dungeon_crawl::combat::CombatOutcome;
use dungeon_crawl::data::{EntityData, GameData, PickupData};
use dungeon_crawl::entity::EntityTrait;
use dungeon_crawl::equipment::{Equipment, EquipmentType};
use dungeon_crawl::grid::{GameOutcome, Grid};
use dungeon_crawl::item::{Item, ItemType};
use dungeon_crawl::monster::Monster;
use dungeon_crawl::player::Player;
use dungeon_crawl::ui::UI;

fn entity_data(name: &str, icon: &str, hp: i32, atk: i32) -> EntityData {
    EntityData {
        name: name.to_string(),
        icon: icon.to_string(),
        description: format!("a {}", name),
        hp,
        atk,
    }
}

fn pickup_data(name: &str, icon: &str) -> PickupData {
    PickupData {
        name: name.to_string(),
        icon: icon.to_string(),
        description: format!("a {}", name),
    }
}

fn sample_data() -> GameData {
    GameData {
        player: entity_data("Indiana", "🧍", 100, 10),
        dino: entity_data("Dino", "🦖", 60, 12),
        turkey: entity_data("Turkey", "🦃", 20, 4),
        boar: entity_data("Boar", "🐗", 30, 6),
        snail: entity_data("Snail", "🐌", 10, 2),
        mosquito: entity_data("Mosquito", "🦟", 5, 8),
        dragon: entity_data("Dragon", "🐉", 90, 20),
        whale: entity_data("Whale", "🐳", 80, 10),
        healing_potion: pickup_data("Potion", "🧪"),
        hat: pickup_data("Hat", "🎩"),
        glasses: pickup_data("Glasses", "👓"),
        vest: pickup_data("Vest", "🦺"),
        pants: pickup_data("Pants", "👖"),
        whip: pickup_data("Whip", "🔗"),
        shoes: pickup_data("Shoes", "👟"),
    }
}

fn open_grid(size: usize, goal: (usize, usize)) -> Grid {
    let data = sample_data();
    let player = Player::new(&data.player, (0, 0));
    Grid::from_parts(size, goal, player, UI::new(size), data)
}

#[test]
fn walking_to_the_goal_wins() {
    // 5 by 5 grid, no walls, start (0,0), goal (4,4): four steps right and
    // four steps down reach the goal.
    let mut grid = open_grid(5, (4, 4));
    for _ in 0..4 {
        grid.move_player('d');
    }
    for _ in 0..4 {
        grid.move_player('s');
    }
    assert_eq!(grid.player().get_position(), (4, 4));
    assert!(grid.has_won());
    assert_eq!(grid.outcome(), GameOutcome::Won);
}

#[test]
fn moves_off_the_grid_are_ignored() {
    let mut grid = open_grid(5, (4, 4));
    grid.move_player('z');
    grid.move_player('q');
    assert_eq!(grid.player().get_position(), (0, 0));
    grid.move_player('x');
    assert_eq!(grid.player().get_position(), (0, 0));
}

#[test]
fn walls_block_movement_silently() {
    let mut grid = open_grid(5, (4, 4));
    grid.add_wall((1, 0));
    grid.move_player('d');
    assert_eq!(grid.player().get_position(), (0, 0));
    grid.move_player('s');
    assert_eq!(grid.player().get_position(), (0, 1));
}

#[test]
fn double_steps_need_shoes() {
    let mut grid = open_grid(7, (6, 6));
    grid.move_player('D');
    assert_eq!(grid.player().get_position(), (0, 0));
    let data = sample_data();
    let shoes = Equipment::new(&data.shoes, EquipmentType::Shoes, (0, 0));
    grid.add_equipment(shoes);
    grid.check_for_equipment();
    assert!(grid.player().has_equipment(EquipmentType::Shoes));
    grid.move_player('D');
    assert_eq!(grid.player().get_position(), (2, 0));
}

#[test]
fn flee_reverses_the_last_step() {
    let mut grid = open_grid(5, (4, 4));
    grid.move_player('d');
    assert_eq!(grid.player().get_position(), (1, 0));
    grid.flee();
    assert_eq!(grid.player().get_position(), (0, 0));
}

#[test]
fn monsters_skip_one_tick_after_a_flee() {
    let mut grid = open_grid(7, (6, 6));
    let data = sample_data();
    grid.add_monster(Monster::new(&data.boar, (5, 0)));
    grid.move_player('d');
    grid.flee();
    grid.move_monsters();
    assert_eq!(grid.monsters().get(0).get_position(), (5, 0));
    grid.move_player('d');
    grid.move_monsters();
    assert_eq!(grid.monsters().get(0).get_position(), (4, 0));
}

#[test]
fn monsters_step_toward_the_player() {
    let mut grid = open_grid(5, (4, 4));
    let data = sample_data();
    grid.add_monster(Monster::new(&data.snail, (4, 0)));
    grid.move_monsters();
    assert_eq!(grid.monsters().get(0).get_position(), (3, 0));
    grid.move_monsters();
    assert_eq!(grid.monsters().get(0).get_position(), (2, 0));
}

#[test]
fn monsters_never_share_a_cell() {
    // Both monsters want (2, 0); the second must settle for another cell.
    let mut grid = open_grid(5, (4, 4));
    let data = sample_data();
    grid.add_monster(Monster::new(&data.snail, (3, 0)));
    grid.add_monster(Monster::new(&data.boar, (3, 1)));
    grid.move_monsters();
    let first = grid.monsters().get(0).get_position();
    let second = grid.monsters().get(1).get_position();
    assert_eq!(first, (2, 0));
    assert_ne!(first, second);
    assert_eq!(second, (2, 1));
}

#[test]
fn monsters_do_not_walk_through_walls() {
    let mut grid = open_grid(5, (4, 4));
    let data = sample_data();
    grid.add_wall((1, 0));
    grid.add_wall((2, 1));
    grid.add_monster(Monster::new(&data.snail, (2, 0)));
    grid.move_monsters();
    // Westward (1,0) is walled and south (2,1) is walled; the monster has
    // only (3,0) left among cells that approach nothing better.
    assert_eq!(grid.monsters().get(0).get_position(), (3, 0));
}

#[test]
fn item_pickup_is_idempotent() {
    // Checking twice at the same coordinate mutates the inventory once.
    let mut grid = open_grid(5, (4, 4));
    let data = sample_data();
    grid.add_item(Item::new(&data.healing_potion, ItemType::HealingPotion, (0, 0)));
    grid.check_for_item();
    assert_eq!(grid.player().get_items().len(), 1);
    grid.check_for_item();
    assert_eq!(grid.player().get_items().len(), 1);
    assert!(grid.items().get(0).is_equiped());
    assert!(!grid.items().get(0).is_visible());
}

#[test]
fn equipment_pickup_is_idempotent() {
    let mut grid = open_grid(5, (4, 4));
    let data = sample_data();
    grid.add_equipment(Equipment::new(&data.vest, EquipmentType::Vest, (0, 0)));
    grid.check_for_equipment();
    assert_eq!(grid.player().get_equipment().len(), 1);
    grid.check_for_equipment();
    assert_eq!(grid.player().get_equipment().len(), 1);
    assert!(grid.equipments().get(0).is_equiped());
}

#[test]
fn hat_extends_sight_and_swaps_icon() {
    let mut grid = open_grid(5, (4, 4));
    let data = sample_data();
    grid.add_equipment(Equipment::new(&data.hat, EquipmentType::Hat, (0, 0)));
    grid.check_for_equipment();
    assert_eq!(grid.player().get_range(), 5);
    assert_eq!(grid.player().get_icon(), "🤠");
}

#[test]
fn glasses_swap_icon_only_without_a_hat() {
    let mut grid = open_grid(5, (4, 4));
    let data = sample_data();
    grid.add_equipment(Equipment::new(&data.glasses, EquipmentType::Glasses, (0, 0)));
    grid.check_for_equipment();
    assert_eq!(grid.player().get_icon(), "🤓");
    assert_eq!(grid.player().get_range(), 2);
}

#[test]
fn second_hat_becomes_a_potion() {
    // A duplicate equipment type converts into a healing potion: the
    // equipment list does not grow, the inventory does.
    let mut grid = open_grid(5, (4, 4));
    let data = sample_data();
    grid.add_equipment(Equipment::new(&data.hat, EquipmentType::Hat, (0, 0)));
    grid.check_for_equipment();
    assert_eq!(grid.player().get_equipment().len(), 1);
    grid.add_equipment(Equipment::new(&data.hat, EquipmentType::Hat, (1, 0)));
    grid.move_player('d');
    grid.check_for_equipment();
    assert_eq!(grid.player().get_equipment().len(), 1);
    assert_eq!(grid.player().get_items().len(), 1);
    assert_eq!(*grid.player().get_items()[0].get_type(), ItemType::HealingPotion);
}

#[test]
fn losing_takes_precedence_over_winning() {
    // Function-level exclusivity: dead on the goal tile reports a loss.
    let dying = entity_data("Indiana", "🧍", 5, 10);
    let player = Player::new(&dying, (4, 4));
    let mut grid = Grid::from_parts(5, (4, 4), player, UI::new(5), sample_data());
    assert!(grid.has_won());
    assert!(!grid.has_lost());
    assert_eq!(grid.outcome(), GameOutcome::Won);
    grid.heal_player(-20);
    assert!(grid.has_won());
    assert!(grid.has_lost());
    assert_eq!(grid.outcome(), GameOutcome::Lost);
}

#[test]
fn remembered_walls_stay_rendered() {
    // A wall seen once keeps rendering after the player walks out of sight;
    // a wall never seen stays hidden.
    let mut grid = open_grid(7, (6, 6));
    grid.add_wall((1, 0));
    grid.add_wall((4, 6));
    grid.build_map();
    assert_eq!(grid.map()[1][0], "🟧");
    assert_eq!(grid.map()[4][6], "⬛️");
    for _ in 0..4 {
        grid.move_player('s');
    }
    assert_eq!(grid.player().get_position(), (0, 4));
    grid.build_map();
    assert_eq!(grid.map()[1][0], "🟧");
    assert_eq!(grid.map()[4][6], "⬛️");
}

#[test]
fn map_layers_terrain_pickups_monsters() {
    let mut grid = open_grid(5, (4, 4));
    let data = sample_data();
    grid.add_item(Item::new(&data.healing_potion, ItemType::HealingPotion, (1, 1)));
    grid.add_item(Item::new(&data.healing_potion, ItemType::HealingPotion, (2, 2)));
    grid.add_monster(Monster::new(&data.snail, (2, 2)));
    grid.build_map();
    assert_eq!(grid.map()[0][0], "🧍");
    assert_eq!(grid.map()[4][4], "👑");
    // Without Glasses a pickup shows the generic gift icon.
    assert_eq!(grid.map()[1][1], "🎁");
    // A monster hides the pickup under it.
    assert_eq!(grid.map()[2][2], "🐌");
    assert_eq!(grid.map()[3][3], "⬛️");
}

#[test]
fn glasses_reveal_pickup_icons() {
    let mut grid = open_grid(5, (4, 4));
    let data = sample_data();
    grid.add_equipment(Equipment::new(&data.glasses, EquipmentType::Glasses, (0, 0)));
    grid.check_for_equipment();
    grid.add_item(Item::new(&data.healing_potion, ItemType::HealingPotion, (1, 1)));
    grid.build_map();
    assert_eq!(grid.map()[1][1], "🧪");
}

#[test]
fn out_of_range_entities_are_not_rendered() {
    let mut grid = open_grid(9, (8, 8));
    let data = sample_data();
    grid.add_item(Item::new(&data.healing_potion, ItemType::HealingPotion, (6, 0)));
    grid.add_monster(Monster::new(&data.boar, (0, 6)));
    grid.build_map();
    assert_eq!(grid.map()[6][0], "⬛️");
    assert_eq!(grid.map()[0][6], "⬛️");
}

#[test]
fn combat_cross_marks_a_shared_cell() {
    let mut grid = open_grid(5, (4, 4));
    let data = sample_data();
    grid.add_monster(Monster::new(&data.boar, (0, 0)));
    grid.build_map();
    assert_eq!(grid.map()[0][0], "❌");
}

#[test]
fn dead_player_renders_as_a_skull() {
    let mut grid = open_grid(5, (4, 4));
    grid.heal_player(-200);
    grid.build_map();
    assert_eq!(grid.map()[0][0], "💀");
}

#[test]
fn collected_pickups_vanish_from_the_map() {
    let mut grid = open_grid(5, (4, 4));
    let data = sample_data();
    grid.add_item(Item::new(&data.healing_potion, ItemType::HealingPotion, (0, 0)));
    grid.check_for_item();
    grid.build_map();
    assert_eq!(grid.map()[0][0], "🧍");
}

#[test]
fn defeated_monsters_vanish_from_the_map() {
    let mut grid = open_grid(5, (4, 4));
    let data = sample_data();
    grid.add_monster(Monster::new(&data.snail, (0, 0)));
    assert_eq!(grid.combat_turn(0, 'a', false), CombatOutcome::Victory);
    grid.build_map();
    assert_eq!(grid.map()[0][0], "🧍");
}

#[test]
fn update_ui_mirrors_the_world() {
    let mut grid = open_grid(5, (4, 4));
    let data = sample_data();
    grid.add_equipment(Equipment::new(&data.vest, EquipmentType::Vest, (0, 0)));
    grid.check_for_equipment();
    grid.build_map();
    grid.update_ui();
    assert_eq!(grid.ui().map()[0][0], "🧍");
    assert_eq!(grid.ui().equipments().len(), 1);
    assert_eq!(grid.ui().equipments()[0].get_name(), "Vest");
    assert_eq!(grid.ui().items().len(), 0);
}

#[test]
fn fresh_worlds_start_clean_with_a_far_goal() {
    for _ in 0..10 {
        let grid = Grid::new(12, UI::new(12), sample_data());
        let goal = grid.goal();
        assert!(goal.0 >= 9 && goal.0 < 12);
        assert!(goal.1 >= 9 && goal.1 < 12);
        assert_eq!(grid.player().get_position(), (0, 0));
        assert_eq!(grid.walls().len(), 0);
        assert_eq!(grid.monsters().len(), 0);
        assert_eq!(grid.items().len(), 0);
        assert_eq!(grid.equipments().len(), 0);
        assert_eq!(grid.map().len(), 12);
        assert_eq!(grid.map()[7][7], "⬛️");
    }
}

#[test]
fn equipment_registry_range_query() {
    let data = sample_data();
    let mut grid = open_grid(9, (8, 8));
    grid.add_equipment(Equipment::new(&data.hat, EquipmentType::Hat, (2, 2)));
    grid.add_equipment(Equipment::new(&data.whip, EquipmentType::Whip, (8, 8)));
    let near = grid.equipments().within_range((0, 0), 2);
    assert_eq!(near.len(), 1);
    assert_eq!(near[0].get_type(), EquipmentType::Hat);
    let all = grid.equipments().within_range((0, 0), 8);
    assert_eq!(all.len(), 2);
}

#[test]
fn blank_ui_promotes_even_sizes_to_odd() {
    let ui = UI::new(6);
    assert_eq!(ui.map().len(), 7);
    assert_eq!(ui.map()[0].len(), 7);
    assert_eq!(ui.map()[3][4], "");
    let ui = UI::new(5);
    assert_eq!(ui.map().len(), 5);
}

#[test]
fn heal_player_is_uncapped() {
    let mut grid = open_grid(5, (4, 4));
    grid.heal_player(10);
    assert_eq!(grid.player().get_health(), 110);
    grid.heal_player(10_000);
    assert_eq!(grid.player().get_health(), 10_110);
}

#[test]
fn generated_maze_keeps_start_and_goal_passable() {
    for size in [5usize, 9, 15] {
        let data = sample_data();
        let player = Player::new(&data.player, (0, 0));
        let mut grid = Grid::from_parts(size, (size - 1, size - 1), player, UI::new(size), data);
        grid.init();
        let walls = grid.walls();
        assert!(!walls.contains(&(0, 0)));
        assert!(!walls.contains(&(size - 1, size - 1)));
        for w in walls {
            assert!(w.0 < size && w.1 < size);
        }
    }
}

#[test]
fn init_scatters_pickups_and_monsters() {
    let data = sample_data();
    let player = Player::new(&data.player, (0, 0));
    let mut grid = Grid::from_parts(11, (10, 10), player, UI::new(11), data);
    grid.init();
    // 121 cells: two items, two equipment pieces, one monster.
    assert_eq!(grid.items().len(), 2);
    assert_eq!(grid.equipments().len(), 2);
    assert_eq!(grid.monsters().len(), 1);
    let mut occupied: Vec<(usize, usize)> = Vec::new();
    for i in 0..grid.items().len() {
        occupied.push(grid.items().get(i).get_position());
    }
    for i in 0..grid.equipments().len() {
        occupied.push(grid.equipments().get(i).get_position());
    }
    for i in 0..grid.monsters().len() {
        occupied.push(grid.monsters().get(i).get_position());
    }
    for (n, p) in occupied.iter().enumerate() {
        assert_ne!(*p, (0, 0));
        assert_ne!(*p, (10, 10));
        assert!(!grid.walls().contains(p));
        for q in occupied.iter().skip(n + 1) {
            assert_ne!(p, q);
        }
    }
}

#[test]
fn combat_turns_follow_the_rules() {
    let mut grid = open_grid(5, (4, 4));
    let data = sample_data();
    // A snail with 10 hp dies to one 10-point strike.
    grid.add_monster(Monster::new(&data.snail, (0, 0)));
    assert_eq!(grid.combat_candidate(), Some(0));
    let out = grid.combat_turn(0, 'a', true);
    assert_eq!(out, CombatOutcome::Victory);
    assert!(!grid.monsters().get(0).is_visible());
    assert_eq!(grid.combat_candidate(), None);
}

#[test]
fn combat_exchange_and_flight() {
    let mut grid = open_grid(5, (4, 4));
    let data = sample_data();
    grid.add_monster(Monster::new(&data.dragon, (0, 0)));
    let out = grid.combat_turn(0, 'a', true);
    assert_eq!(out, CombatOutcome::InProgress);
    assert_eq!(grid.monsters().get(0).get_health(), 80);
    assert_eq!(grid.player().get_health(), 80);
    let out = grid.combat_turn(0, '?', true);
    assert_eq!(out, CombatOutcome::InProgress);
    let out = grid.combat_turn(0, 'f', false);
    assert_eq!(out, CombatOutcome::InProgress);
    let out = grid.combat_turn(0, 'f', true);
    assert_eq!(out, CombatOutcome::Fled);
}

#[test]
fn combat_potion_turn_heals() {
    let mut grid = open_grid(5, (4, 4));
    let data = sample_data();
    grid.add_item(Item::new(&data.healing_potion, ItemType::HealingPotion, (0, 0)));
    grid.check_for_item();
    grid.add_monster(Monster::new(&data.dragon, (0, 0)));
    let out = grid.combat_turn(0, 'p', true);
    assert_eq!(out, CombatOutcome::InProgress);
    assert_eq!(grid.player().get_health(), 120);
    assert_eq!(grid.player().get_items().len(), 0);
}

#[test]
fn combat_defeat_when_the_player_falls() {
    let data = sample_data();
    let frail = entity_data("Indiana", "🧍", 10, 10);
    let player = Player::new(&frail, (0, 0));
    let mut grid = Grid::from_parts(5, (4, 4), player, UI::new(5), sample_data());
    grid.add_monster(Monster::new(&data.dragon, (0, 0)));
    let out = grid.combat_turn(0, 'a', false);
    assert_eq!(out, CombatOutcome::Defeat);
    assert!(grid.has_lost());
    assert_eq!(grid.outcome(), GameOutcome::Lost);
}
