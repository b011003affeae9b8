use dungeon_crawl::data::PickupData;
use dungeon_crawl::entity::EntityTrait;
use dungeon_crawl::equipment::{Equipment, EquipmentManager, EquipmentType};
use dungeon_crawl::item::{Item, ItemManager, ItemType};
use dungeon_crawl::monster::MonsterManager;

fn pickup(name: &str) -> PickupData {
    PickupData {
        name: name.to_string(),
        icon: "🎁".to_string(),
        description: name.to_string(),
    }
}

fn item_at(pos: (usize, usize)) -> Item {
    Item::new(&pickup("Potion"), ItemType::HealingPotion, pos)
}

#[test]
fn within_range_zero_matches_exact_position_only() {
    let mut reg = ItemManager::new();
    reg.add(item_at((5, 5)));
    reg.add(item_at((5, 6)));
    reg.add(item_at((4, 5)));
    let hits = reg.within_range((5, 5), 0);
    assert_eq!(hits.len(), 1);
    assert_eq!(hits[0].get_position(), (5, 5));
}

#[test]
fn within_range_grid_diagonal_returns_everything() {
    let mut reg = ItemManager::new();
    reg.add(item_at((0, 0)));
    reg.add(item_at((9, 9)));
    reg.add(item_at((3, 7)));
    let hits = reg.within_range((4, 4), 10);
    assert_eq!(hits.len(), 3);
}

#[test]
fn within_range_is_chebyshev_not_manhattan() {
    // (7, 7) is two steps diagonally from (5, 5): Chebyshev distance 2,
    // Manhattan distance 4.
    let mut reg = ItemManager::new();
    reg.add(item_at((7, 7)));
    assert_eq!(reg.within_range((5, 5), 2).len(), 1);
    assert_eq!(reg.within_range((5, 5), 1).len(), 0);
}

#[test]
fn within_range_keeps_insertion_order() {
    let mut reg = ItemManager::new();
    reg.add(item_at((2, 2)));
    reg.add(item_at((9, 9)));
    reg.add(item_at((1, 1)));
    reg.add(item_at((3, 3)));
    let hits = reg.within_range((2, 2), 1);
    assert_eq!(hits.len(), 3);
    assert_eq!(hits[0].get_position(), (2, 2));
    assert_eq!(hits[1].get_position(), (1, 1));
    assert_eq!(hits[2].get_position(), (3, 3));
}

#[test]
fn occupancy_check() {
    let mut reg = EquipmentManager::new();
    assert!(!reg.is_position_occupied((1, 1)));
    reg.add(Equipment::new(&pickup("Hat"), EquipmentType::Hat, (1, 1)));
    assert!(reg.is_position_occupied((1, 1)));
    assert!(!reg.is_position_occupied((1, 2)));
}

#[test]
fn get_mut_returns_first_match_and_mutates_in_place() {
    let mut reg = ItemManager::new();
    reg.add(item_at((4, 4)));
    reg.add(item_at((4, 4)));
    {
        let first = reg.get_mut((4, 4)).expect("an item sits there");
        assert!(!first.is_equiped());
        first.set_equiped(true);
    }
    assert!(reg.get(0).is_equiped());
    assert!(!reg.get(1).is_equiped());
    assert!(reg.get_mut((8, 8)).is_none());
}

#[test]
fn monster_registry_supports_the_ai_step() {
    let mut reg = MonsterManager::new();
    let stats = dungeon_crawl::data::EntityData {
        name: "Boar".to_string(),
        icon: "🐗".to_string(),
        description: "a boar".to_string(),
        hp: 30,
        atk: 6,
    };
    reg.add(dungeon_crawl::monster::Monster::new(&stats, (2, 2)));
    reg.add(dungeon_crawl::monster::Monster::new(&stats, (6, 6)));
    assert_eq!(reg.len(), 2);
    assert_eq!(reg.within_range((2, 2), 1).len(), 1);
    assert!(reg.is_position_occupied((6, 6)));
    reg.set_position_at(1, (6, 5));
    assert!(!reg.is_position_occupied((6, 6)));
    assert!(reg.is_position_occupied((6, 5)));
    reg.set_visible_at(0, false);
    assert!(!reg.get(0).is_visible());
    let m = reg.get_mut((6, 5)).expect("a monster sits there");
    m.take_damage(40);
    assert!(reg.get(1).is_dead());
}
