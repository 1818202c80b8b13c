pub mod birth;
pub mod building;
pub mod building_relation;
pub mod building_usecase;
pub mod character;
pub mod character_name;
pub mod character_name_gen;
pub mod character_usecase;
pub mod death;
pub mod gender;
pub mod marriage;
pub mod name_gen;
pub mod relation;
pub mod relation_check;
pub mod relation_get;
pub mod rng;
pub mod sim_building;
pub mod simulation;
pub mod time;
pub mod town_map;

use vstd::prelude::*;
use crate::building::BuildingMgr;
use crate::character::CharacterMgr;
use crate::character_name_gen::CharacterNameGenerator;
use crate::name_gen::NameGenerator;
use crate::time::Date;
use crate::town_map::TownMap;

verus! {

/// The whole simulation state: the two entity stores, the name tables,
/// the current date and the town grid, passed by reference into every
/// operation rather than held globally.
pub struct SimulationData {
    pub building_manager: BuildingMgr,
    pub character_manager: CharacterMgr,
    pub character_name_generator: CharacterNameGenerator,
    pub date: Date,
    pub map: TownMap,
}

impl Default for SimulationData {
    /// Empty stores, default name tables, year zero, and a six-by-five grid.
    fn default() -> (r: Self)
        ensures
            r.building_manager.buildings@.len() == 0,
            r.character_manager.characters@.len() == 0,
            r.character_manager.wf(),
            r.date.0 == 0,
            r.map.blocks@.len() == 30,
            forall|b: int|
                0 <= b < r.map.blocks@.len() ==> r.map.blocks@[b]
                    == crate::town_map::TownBlock::EmptyBlock,
            r.character_name_generator.male_names.total_value > 0,
            r.character_name_generator.female_names.total_value > 0,
            r.character_name_generator.family_names.total_value > 0,
    {
        SimulationData {
            building_manager: BuildingMgr::default(),
            character_manager: CharacterMgr::default(),
            character_name_generator: CharacterNameGenerator::new(
                NameGenerator::default(),
                NameGenerator::default(),
                NameGenerator::default(),
            ),
            date: Date::default(),
            map: TownMap::empty(6, 5),
        }
    }
}

} // verus!
