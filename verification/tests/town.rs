use town_simulation::birth::{birth, get_birth_date, set_birth_date};
use town_simulation::building::BuildingUsage;
use town_simulation::building_usecase::{
    build, get_builder, get_building_occupied_by, get_buildings_build_by, get_buildings_owned_by,
    get_occupants, get_owner, relocate_to_house,
};
use town_simulation::character::{CharacterId, CharacterMgr};
use town_simulation::death::{death, get_death_date, is_alive, is_dead};
use town_simulation::marriage::marry;
use town_simulation::sim_building::relocate;
use town_simulation::building::BuildingId;
use town_simulation::time::Date;
use town_simulation::SimulationData;

fn assert_buildings(left: Vec<BuildingId>, right: &[BuildingId]) {
    assert_eq!(left.len(), right.len(), "building lists differ in size");
    for id in right {
        assert!(left.contains(id), "building list misses an entry");
    }
}

fn assert_characters(left: Vec<CharacterId>, right: &[CharacterId]) {
    assert_eq!(left.len(), right.len(), "character lists differ in size");
    for id in right {
        assert!(left.contains(id), "character list misses an entry");
    }
}

#[test]
fn build_test_relations() {
    let mut data = SimulationData::default();
    let builder = data.character_manager.create();
    let owner = data.character_manager.create();

    let building = build(&mut data, 1, 2, BuildingUsage::house(), builder, owner);

    assert_eq!(get_builder(&data.building_manager, building), builder);
    assert_eq!(get_owner(&data.building_manager, building), owner);

    assert_buildings(
        get_buildings_build_by(&data.character_manager, builder),
        &[building],
    );
    assert!(get_buildings_build_by(&data.character_manager, owner).is_empty());

    assert_buildings(
        get_buildings_owned_by(&data.character_manager, owner),
        &[building],
    );
    assert!(get_buildings_owned_by(&data.character_manager, builder).is_empty());
}

#[test]
fn no_occupants_after_build() {
    let mut data = SimulationData::default();
    let builder = data.character_manager.create();
    let owner = data.character_manager.create();

    let building = build(&mut data, 1, 2, BuildingUsage::house(), builder, owner);

    assert!(get_occupants(&data.building_manager, building).is_empty());
}

#[test]
fn building_is_added_to_town() {
    let mut data = SimulationData::default();
    let builder = data.character_manager.create();
    let owner = data.character_manager.create();

    let building = build(&mut data, 1, 2, BuildingUsage::house(), builder, owner);

    assert_eq!(data.map.get_building(1, 2), Some(building));
}

#[test]
fn test_relocate() {
    let mut data = SimulationData::default();
    let builder = data.character_manager.create();
    let owner = data.character_manager.create();
    let occupant0 = data.character_manager.create();
    let occupant1 = data.character_manager.create();

    let building = build(&mut data, 1, 2, BuildingUsage::house(), builder, owner);

    relocate_to_house(&mut data, vec![occupant0, occupant1], building);

    assert_characters(
        get_occupants(&data.building_manager, building),
        &[occupant0, occupant1],
    );

    assert_eq!(
        get_building_occupied_by(&data.character_manager, occupant0),
        Some(building)
    );
    assert_eq!(
        get_building_occupied_by(&data.character_manager, occupant1),
        Some(building)
    );
}

#[test]
fn relocate_to_another_house() {
    let mut data = SimulationData::default();
    let builder = data.character_manager.create();
    let owner = data.character_manager.create();
    let occupant = data.character_manager.create();

    let building0 = build(&mut data, 1, 2, BuildingUsage::house(), builder, owner);
    let building1 = build(&mut data, 1, 3, BuildingUsage::house(), builder, owner);

    relocate_to_house(&mut data, vec![occupant], building0);
    relocate_to_house(&mut data, vec![occupant], building1);

    assert_characters(get_occupants(&data.building_manager, building0), &[]);
    assert_characters(get_occupants(&data.building_manager, building1), &[occupant]);

    assert_eq!(
        get_building_occupied_by(&data.character_manager, occupant),
        Some(building1)
    );
}

#[test]
fn set_birth_date_of_character() {
    let mut manager = CharacterMgr::default();
    let id = manager.create();
    let date = Date::new(42);

    set_birth_date(&mut manager, id, date);

    assert_eq!(get_birth_date(&manager, id), &date)
}

#[test]
fn child_live_in_their_parents_home() {
    let mut data = SimulationData::default();

    let parent_id0 = data.character_manager.create();
    let parent_id1 = data.character_manager.create();

    marry(&mut data.character_manager, parent_id0, parent_id1);

    let building_id = build(
        &mut data,
        0,
        0,
        BuildingUsage::house(),
        parent_id0,
        parent_id0,
    );

    relocate_to_house(&mut data, vec![parent_id0, parent_id1], building_id);

    let child_id = birth(&mut data, parent_id0, parent_id1);

    assert_eq!(
        get_building_occupied_by(&data.character_manager, child_id),
        Some(building_id)
    );
    assert_characters(
        get_occupants(&data.building_manager, building_id),
        &[parent_id0, parent_id1, child_id],
    );
}

#[test]
fn characters_start_alive() {
    let mut manager = CharacterMgr::default();

    let id = manager.create();

    assert!(is_alive(&manager, id));
    assert!(!is_dead(&manager, id));
    assert_eq!(get_death_date(&manager, id), &None)
}

#[test]
fn characters_are_dead_after_death() {
    let mut data = SimulationData::default();

    let id = data.character_manager.create();

    data.date = Date::new(42);

    death(&mut data, id);

    assert!(!is_alive(&data.character_manager, id));
    assert!(is_dead(&data.character_manager, id));
    assert_eq!(
        get_death_date(&data.character_manager, id),
        &Some(Date::new(42))
    )
}

#[test]
fn dead_characters_are_not_occupants() {
    let mut data = SimulationData::default();

    let character_id = data.character_manager.create();
    let other_id = data.character_manager.create();
    let building_id = data.building_manager.create(
        BuildingUsage::house(),
        data.date,
        other_id,
        other_id,
    );

    relocate_to_house(&mut data, vec![character_id, other_id], building_id);

    death(&mut data, character_id);

    assert_eq!(
        get_building_occupied_by(&data.character_manager, character_id),
        None
    );
    assert_eq!(
        get_building_occupied_by(&data.character_manager, other_id),
        Some(building_id)
    );
    assert_characters(
        get_occupants(&data.building_manager, building_id),
        &[other_id],
    );
}

#[test]
fn child_inherits_after_death() {
    let mut data = SimulationData::default();

    let character_id = data.character_manager.create();
    let spouse_id = data.character_manager.create();

    marry(&mut data.character_manager, character_id, spouse_id);

    let building_id = build(
        &mut data,
        0,
        0,
        BuildingUsage::house(),
        character_id,
        character_id,
    );

    relocate_to_house(&mut data, vec![character_id, spouse_id], building_id);

    death(&mut data, character_id);

    assert_eq!(
        get_builder(&data.building_manager, building_id),
        character_id
    );
    assert_eq!(get_owner(&data.building_manager, building_id), spouse_id);
    assert_buildings(
        get_buildings_owned_by(&data.character_manager, character_id),
        &[],
    );
    assert_buildings(
        get_buildings_owned_by(&data.character_manager, spouse_id),
        &[building_id],
    );
}

#[test]
fn simulate_year_advances_the_clock() {
    let mut data = SimulationData::default();
    let a = data.character_manager.create();
    let b = data.character_manager.create();
    set_birth_date(&mut data.character_manager, a, Date::new(0));
    set_birth_date(&mut data.character_manager, b, Date::new(0));
    data.date = Date::new(30);

    town_simulation::simulation::simulate_year(&mut data);

    assert_eq!(data.date.get_year(), 31);
    assert!(data.character_manager.characters.len() >= 2);
}

#[test]
fn relocate_reuses_an_empty_house() {
    let mut data = SimulationData::default();
    let builder = data.character_manager.create();
    let mover0 = data.character_manager.create();
    let mover1 = data.character_manager.create();

    let building = build(&mut data, 1, 2, BuildingUsage::house(), builder, builder);
    assert_eq!(data.building_manager.get_all().len(), 1);

    relocate(&mut data, vec![mover0, mover1]);

    // the empty house is reused instead of a new one being built
    assert_eq!(data.building_manager.get_all().len(), 1);
    assert_characters(
        get_occupants(&data.building_manager, building),
        &[mover0, mover1],
    );
    assert_eq!(
        get_building_occupied_by(&data.character_manager, mover0),
        Some(building)
    );
    assert_eq!(
        get_building_occupied_by(&data.character_manager, mover1),
        Some(building)
    );
}

#[test]
fn relocate_builds_when_no_home_is_empty() {
    let mut data = SimulationData::default();
    let builder = data.character_manager.create();
    let mover0 = data.character_manager.create();
    let mover1 = data.character_manager.create();

    let building = build(&mut data, 1, 2, BuildingUsage::house(), builder, builder);
    relocate_to_house(&mut data, vec![builder], building);

    relocate(&mut data, vec![mover0, mover1]);

    // the only house is taken, so a second building appears
    assert_eq!(data.building_manager.get_all().len(), 2);
    let new_home = BuildingId::new(1);
    assert_characters(
        get_occupants(&data.building_manager, new_home),
        &[mover0, mover1],
    );
    assert_characters(get_occupants(&data.building_manager, building), &[builder]);
    assert_eq!(
        get_building_occupied_by(&data.character_manager, mover0),
        Some(new_home)
    );
}
