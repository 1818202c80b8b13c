use town_simulation::building::{Building, BuildingId, BuildingUsage};
use town_simulation::character::{Character, CharacterId};
use town_simulation::character_name::CharacterName;
use town_simulation::gender::Gender::{Female, Male};
use town_simulation::name_gen::{Entry, NameGenerator};
use town_simulation::rng::RandomNumberGenerator;
use town_simulation::time::Date;
use town_simulation::town_map::TownBlock::{EmptyBlock, SmallBuildings};
use town_simulation::town_map::TownLot::{BuildingLot, EmptyLot};
use town_simulation::town_map::TownMap;

#[test]
fn test_get() {
    let generator = NameGenerator::new(vec![
        Entry::new("A".to_string(), 3),
        Entry::new("B".to_string(), 2),
    ]);

    assert_eq!(generator.get(0), "A");
    assert_eq!(generator.get(1), "A");
    assert_eq!(generator.get(2), "A");
    assert_eq!(generator.get(3), "B");
    assert_eq!(generator.get(4), "B");
    assert_eq!(generator.get(5), "A");
}

#[test]
fn test_parse() {
    let generator = NameGenerator::parse(
        "name,value
C,2
D,3",
    );

    assert_eq!(generator.get(0), "C");
    assert_eq!(generator.get(1), "C");
    assert_eq!(generator.get(2), "D");
    assert_eq!(generator.get(3), "D");
    assert_eq!(generator.get(4), "D");
    assert_eq!(generator.get(5), "C");
}

#[test]
fn try_parse_rejects_bad_weights() {
    assert!(NameGenerator::try_parse("name,value\nC,x").is_none());
    assert!(NameGenerator::try_parse("name,value\nC,2").is_some());
}

#[test]
fn get_age() {
    let id = BuildingId::new(0);
    let character_id = CharacterId::new(0);
    let building = Building::new(
        id,
        BuildingUsage::house(),
        Date::new(10),
        character_id,
        character_id,
    );

    assert_eq!(building.get_age(Date::new(52)), 42);
}

#[test]
fn test_reverse() {
    assert_eq!(Male.reverse(), Female);
    assert_eq!(Female.reverse(), Male);
}

#[test]
fn test_is_reverse() {
    assert!(Male.is_reverse(Female));
    assert!(!Male.is_reverse(Male));
    assert!(Female.is_reverse(Male));
    assert!(!Female.is_reverse(Female));
}

#[test]
fn age_before_death() {
    let mut character = Character::new(CharacterId::new(0));
    character.set_birth_date(Date::new(10));

    assert_eq!(character.get_age(Date::new(52)), 42);
}

#[test]
fn age_after_death() {
    let mut character = Character::new(CharacterId::new(0));
    character.set_birth_date(Date::new(10));
    character.set_death_date(Date::new(52));

    assert_eq!(character.get_age(Date::new(100)), 42);
}

#[test]
fn test_display() {
    let simple = CharacterName::simple("Test");
    let standard = CharacterName::standard("Aaa", "Bbb");
    let married = CharacterName::married("Aaa", "Ccc", "Bbb");

    assert_eq!(simple.to_display_string(), "Test");
    assert_eq!(standard.to_display_string(), "Aaa Bbb");
    assert_eq!(married.to_display_string(), "Aaa Ccc nee Bbb");
}

#[test]
fn test_sorted() {
    let simple = CharacterName::simple("Test");
    let standard = CharacterName::standard("Aaa", "Bbb");
    let married = CharacterName::married("Aaa", "Ccc", "Bbb");

    assert_eq!(simple.sorted(), "Test");
    assert_eq!(standard.sorted(), "Bbb, Aaa");
    assert_eq!(married.sorted(), "Ccc nee Bbb, Aaa");
}

#[test]
fn test_get_last() {
    let simple = CharacterName::simple("Test");
    let standard = CharacterName::standard("Aaa", "Bbb");
    let married = CharacterName::married("Aaa", "Ccc", "Bbb");

    assert_eq!(simple.get_last(), None);
    assert_eq!(standard.get_last(), Some("Bbb"));
    assert_eq!(married.get_last(), Some("Ccc"));
}

#[test]
fn test_marry() {
    let simple = CharacterName::simple("Test");
    let standard = CharacterName::standard("Aaa", "Bbb");
    let married = CharacterName::married("Aaa", "Ccc", "Bbb");
    let married2 = CharacterName::married("Aaa", "Ddd", "Bbb");

    assert_eq!(simple.marry("Ccc"), simple);
    assert_eq!(standard.marry("Ccc"), married);
    assert_eq!(married.marry("Ddd"), married2);
}

#[test]
fn test_marry_with_same_last_name() {
    let character = CharacterName::standard("Aaa", "Bbb");

    assert_eq!(character.marry("Bbb"), character);
}

#[test]
fn is_lot_free() {
    let id = BuildingId::new(0);
    let block = SmallBuildings([EmptyLot, BuildingLot(id), EmptyLot, EmptyLot]);
    let map = TownMap::new(2, 1, vec![EmptyBlock, block]);

    assert!(map.is_lot_free(0, 0));
    assert!(map.is_lot_free(0, 1));
    assert!(map.is_lot_free(0, 2));
    assert!(map.is_lot_free(0, 3));

    assert!(map.is_lot_free(1, 0));
    assert_eq!(map.is_lot_free(1, 1), false);
    assert!(map.is_lot_free(1, 2));
    assert!(map.is_lot_free(1, 3));
}

#[test]
fn get_building() {
    let id = BuildingId::new(42);
    let block = SmallBuildings([EmptyLot, EmptyLot, BuildingLot(id), EmptyLot]);
    let map = TownMap::new(2, 1, vec![EmptyBlock, block]);

    assert_eq!(map.get_building(0, 0), None);
    assert_eq!(map.get_building(0, 1), None);
    assert_eq!(map.get_building(0, 2), None);
    assert_eq!(map.get_building(0, 3), None);

    assert_eq!(map.get_building(1, 0), None);
    assert_eq!(map.get_building(1, 1), None);
    assert_eq!(map.get_building(1, 2), Some(id));
    assert_eq!(map.get_building(1, 3), None);
}

#[test]
fn add_building() {
    let id = BuildingId::new(42);
    let mut map = TownMap::new(2, 1, vec![EmptyBlock, EmptyBlock]);

    map.add_building(id, 0, 3);

    assert_eq!(map.get_building(0, 0), None);
    assert_eq!(map.get_building(0, 1), None);
    assert_eq!(map.get_building(0, 2), None);
    assert_eq!(map.get_building(0, 3), Some(id));

    assert_eq!(map.get_building(1, 0), None);
    assert_eq!(map.get_building(1, 1), None);
    assert_eq!(map.get_building(1, 2), None);
    assert_eq!(map.get_building(1, 3), None);
}

#[test]
fn add_second_building_to_a_block() {
    let id0 = BuildingId::new(42);
    let id1 = BuildingId::new(43);
    let block = SmallBuildings([EmptyLot, EmptyLot, BuildingLot(id0), EmptyLot]);
    let mut map = TownMap::new(2, 1, vec![EmptyBlock, block]);

    map.add_building(id1, 1, 0);

    assert_eq!(map.get_building(0, 0), None);
    assert_eq!(map.get_building(0, 1), None);
    assert_eq!(map.get_building(0, 2), None);
    assert_eq!(map.get_building(0, 3), None);

    assert_eq!(map.get_building(1, 0), Some(id1));
    assert_eq!(map.get_building(1, 1), None);
    assert_eq!(map.get_building(1, 2), Some(id0));
    assert_eq!(map.get_building(1, 3), None);
}

#[test]
fn roll_is_deterministic() {
    let rng = RandomNumberGenerator::Hash;
    let first = rng.roll_d100(1800, 7, 2);
    let second = rng.roll_d100(1800, 7, 2);
    assert_eq!(first, second);
    assert!(first < 100);
}

#[test]
fn mock_returns_table_value_or_default() {
    let rng = RandomNumberGenerator::Mock {
        values: vec![((1800, 7, 2), 13)],
        default: 99,
    };
    assert_eq!(rng.roll_d100(1800, 7, 2), 13);
    assert_eq!(rng.roll_d100(1801, 7, 2), 99 % 100);
    assert_eq!(rng.roll_d100(1800, 8, 2), 99);
}

#[test]
fn fresh_characters_are_labelled_by_their_id() {
    let character = Character::new(CharacterId::new(12));
    assert_eq!(character.name().to_display_string(), "12");
    let character = Character::new(CharacterId::new(0));
    assert_eq!(character.name().to_display_string(), "0");
}
