use dungeon_crawl::data::{EntityData, GameData, PickupData};
use dungeon_crawl::entity::EntityTrait;
use dungeon_crawl::equipment::{Equipment, EquipmentType};
use dungeon_crawl::item::{Item, ItemType};
use dungeon_crawl::monster::{Monster, MonsterType};
use dungeon_crawl::player::Player;

fn entity_data(name: &str, icon: &str, hp: i32, atk: i32) -> EntityData {
    EntityData {
        name: name.to_string(),
        icon: icon.to_string(),
        description: format!("a {}", name),
        hp,
        atk,
    }
}

fn pickup_data(name: &str, icon: &str) -> PickupData {
    PickupData {
        name: name.to_string(),
        icon: icon.to_string(),
        description: format!("a {}", name),
    }
}

fn sample_data() -> GameData {
    GameData {
        player: entity_data("Indiana", "🧍", 100, 10),
        dino: entity_data("Dino", "🦖", 60, 12),
        turkey: entity_data("Turkey", "🦃", 20, 4),
        boar: entity_data("Boar", "🐗", 30, 6),
        snail: entity_data("Snail", "🐌", 10, 2),
        mosquito: entity_data("Mosquito", "🦟", 5, 8),
        dragon: entity_data("Dragon", "🐉", 90, 20),
        whale: entity_data("Whale", "🐳", 80, 10),
        healing_potion: pickup_data("Potion", "🧪"),
        hat: pickup_data("Hat", "🎩"),
        glasses: pickup_data("Glasses", "👓"),
        vest: pickup_data("Vest", "🦺"),
        pants: pickup_data("Pants", "👖"),
        whip: pickup_data("Whip", "🔗"),
        shoes: pickup_data("Shoes", "👟"),
    }
}

#[test]
fn player_starts_with_default_stats() {
    let data = sample_data();
    let player = Player::new(&data.player, (2, 3));
    assert_eq!(player.get_health(), 100);
    assert_eq!(player.get_attack(), 10);
    assert_eq!(player.get_position(), (2, 3));
    assert_eq!(player.get_range(), 2);
    assert_eq!(player.get_name(), "Indiana");
    assert_eq!(player.get_icon(), "🧍");
    assert!(player.get_items().is_empty());
    assert!(player.get_equipment().is_empty());
    assert!(!player.is_dead());
}

#[test]
fn potion_heals_twenty_and_is_consumed() {
    let data = sample_data();
    let mut player = Player::new(&data.player, (0, 0));
    let potion = Item::new(&data.healing_potion, ItemType::HealingPotion, (0, 0));
    player.add_item(potion);
    assert_eq!(player.get_items().len(), 1);
    player.use_item(ItemType::HealingPotion);
    assert_eq!(player.get_health(), 120);
    assert_eq!(player.get_items().len(), 0);
}

#[test]
fn use_item_without_potion_changes_nothing() {
    let data = sample_data();
    let mut player = Player::new(&data.player, (0, 0));
    player.use_item(ItemType::HealingPotion);
    assert_eq!(player.get_health(), 100);
    assert_eq!(player.get_items().len(), 0);
}

#[test]
fn remove_item_removes_one_copy() {
    let data = sample_data();
    let mut player = Player::new(&data.player, (0, 0));
    player.add_item(Item::new(&data.healing_potion, ItemType::HealingPotion, (0, 0)));
    player.add_item(Item::new(&data.healing_potion, ItemType::HealingPotion, (1, 1)));
    player.remove_item(ItemType::HealingPotion);
    assert_eq!(player.get_items().len(), 1);
    assert_eq!(player.get_items()[0].get_position(), (1, 1));
}

#[test]
fn damage_floor_blocks_weak_hits() {
    // Vest absorbs 20 and Pants absorb 10; a 25-point hit is fully absorbed
    // and never heals the player.
    let data = sample_data();
    let mut player = Player::new(&data.player, (0, 0));
    player.add_equipment(Equipment::new(&data.vest, EquipmentType::Vest, (0, 0)));
    player.add_equipment(Equipment::new(&data.pants, EquipmentType::Pants, (0, 0)));
    player.take_damage(25);
    assert_eq!(player.get_health(), 100);
    player.take_damage(35);
    assert_eq!(player.get_health(), 95);
}

#[test]
fn damage_applies_in_full_without_resistance() {
    let data = sample_data();
    let mut player = Player::new(&data.player, (0, 0));
    player.take_damage(30);
    assert_eq!(player.get_health(), 70);
}

#[test]
fn monster_attack_can_kill_player() {
    // A 15-point hit on a 10-hp player leaves hp at -5 and the player dead.
    let weak = entity_data("Indiana", "🧍", 10, 10);
    let mut player = Player::new(&weak, (0, 0));
    let striker = entity_data("Dragon", "🐉", 90, 15);
    let monster = Monster::new(&striker, (0, 0));
    monster.attack(&mut player);
    assert_eq!(player.get_health(), -5);
    assert!(player.is_dead());
}

#[test]
fn whip_raises_effective_attack() {
    let data = sample_data();
    let mut player = Player::new(&data.player, (0, 0));
    assert_eq!(player.get_attack(), 10);
    player.add_equipment(Equipment::new(&data.whip, EquipmentType::Whip, (0, 0)));
    assert_eq!(player.get_attack(), 30);
}

#[test]
fn player_attack_strikes_monster() {
    let data = sample_data();
    let mut player = Player::new(&data.player, (0, 0));
    player.add_equipment(Equipment::new(&data.whip, EquipmentType::Whip, (0, 0)));
    let mut monster = Monster::new(&data.dino, (0, 0));
    player.attack(&mut monster);
    assert_eq!(monster.get_health(), 30);
    assert!(!monster.is_dead());
}

#[test]
fn has_equipment_sees_each_type() {
    let data = sample_data();
    let mut player = Player::new(&data.player, (0, 0));
    assert!(!player.has_equipment(EquipmentType::Hat));
    player.add_equipment(Equipment::new(&data.hat, EquipmentType::Hat, (0, 0)));
    assert!(player.has_equipment(EquipmentType::Hat));
    assert!(!player.has_equipment(EquipmentType::Shoes));
}

#[test]
fn heal_has_no_cap() {
    let data = sample_data();
    let mut player = Player::new(&data.player, (0, 0));
    player.heal(1000);
    assert_eq!(player.get_health(), 1100);
}

#[test]
fn entity_setters_roundtrip() {
    let data = sample_data();
    let mut monster = Monster::new(&data.snail, (4, 4));
    assert!(monster.is_visible());
    assert_eq!(monster.get_icon(), "🐌");
    assert_eq!(monster.get_name(), "Snail");
    assert_eq!(monster.get_description(), "a Snail");
    monster.set_visible(false);
    assert!(!monster.is_visible());
    monster.set_position((1, 2));
    assert_eq!(monster.get_position(), (1, 2));
    monster.heal(5);
    assert_eq!(monster.get_health(), 15);
    monster.buff_attack(3);
    assert_eq!(monster.get_attack(), 5);
    monster.take_damage(20);
    assert_eq!(monster.get_health(), -5);
    assert!(monster.is_dead());
}

#[test]
fn item_and_equipment_flags() {
    let data = sample_data();
    let mut item = Item::new(&data.healing_potion, ItemType::HealingPotion, (3, 3));
    assert!(item.is_visible());
    assert!(!item.is_equiped());
    assert_eq!(item.get_name(), "Potion");
    assert_eq!(item.get_icon(), "🧪");
    assert_eq!(item.get_description(), "a Potion");
    assert_eq!(*item.get_type(), ItemType::HealingPotion);
    item.set_visible(false);
    item.set_equiped(true);
    assert!(!item.is_visible());
    assert!(item.is_equiped());

    let mut eq = Equipment::new(&data.shoes, EquipmentType::Shoes, (1, 1));
    assert_eq!(eq.get_name(), "Shoes");
    assert_eq!(eq.get_icon(), "👟");
    assert_eq!(eq.get_description(), "a Shoes");
    assert_eq!(eq.get_type(), EquipmentType::Shoes);
    assert_eq!(eq.get_position(), (1, 1));
    assert!(eq.is_visible());
    assert!(!eq.is_equiped());
    eq.set_visible(false);
    eq.set_equiped(true);
    assert!(!eq.is_visible());
    assert!(eq.is_equiped());
}

#[test]
fn random_item_is_always_a_potion() {
    for _ in 0..20 {
        assert_eq!(Item::random(), ItemType::HealingPotion);
    }
}

#[test]
fn random_monster_is_a_known_species() {
    let data = sample_data();
    let names = ["Dino", "Turkey", "Boar", "Snail", "Mosquito", "Dragon", "Whale"];
    for _ in 0..50 {
        let m = dungeon_crawl::monster::get_random_monster(&data, (2, 2));
        assert!(names.contains(&m.get_name().as_str()));
        assert_eq!(m.get_position(), (2, 2));
        assert!(m.is_visible());
    }
}

#[test]
fn monster_type_table_lookup() {
    let data = sample_data();
    assert_eq!(data.monster_data(MonsterType::Dragon).name, "Dragon");
    assert_eq!(data.monster_data(MonsterType::Whale).hp, 80);
    assert_eq!(data.item_data(ItemType::HealingPotion).icon, "🧪");
    assert_eq!(data.equipment_data(EquipmentType::Vest).name, "Vest");
}
