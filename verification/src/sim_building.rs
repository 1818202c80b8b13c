use vstd::prelude::*;
use crate::building::{Building, BuildingId, BuildingUsage, Home};
use crate::building_relation::BuildingRelationType;
use crate::building_usecase::{build, relocate_to_house};
use crate::character::CharacterId;
use crate::SimulationData;

verus! {

/// Whether a building has a dwelling with nobody in it.
pub open spec fn spec_has_empty_home(usage: BuildingUsage) -> bool {
    match usage {
        BuildingUsage::Apartments(homes) => exists|j: int|
            0 <= j < homes@.len() && (#[trigger] homes@[j]).occupants@.len() == 0,
        BuildingUsage::House(home) => home.occupants@.len() == 0,
    }
}

/// The index of the first building with an empty dwelling, if any.
pub open spec fn first_empty_home(buildings: Seq<Building>) -> Option<int>
    decreases buildings.len(),
{
    if buildings.len() == 0 {
        None
    } else if spec_has_empty_home(buildings[0].usage) {
        Some(0int)
    } else {
        match first_empty_home(buildings.drop_first()) {
            Some(i) => Some(i + 1),
            None => None,
        }
    }
}

/// Where the next relocation puts its movers: the first building with an
/// empty dwelling, or the building that will be added when there is none.
pub open spec fn relocation_target(data: SimulationData) -> int {
    match first_empty_home(data.building_manager.buildings@) {
        Some(i) => i,
        None => data.building_manager.buildings@.len() as int,
    }
}

/// A prefix without empty dwellings followed by a building with one pins
/// down the first index.
proof fn lemma_first_empty_home_at(buildings: Seq<Building>, i: int)
    requires
        0 <= i < buildings.len(),
        forall|q: int| 0 <= q < i ==> !spec_has_empty_home((#[trigger] buildings[q]).usage),
        spec_has_empty_home(buildings[i].usage),
    ensures
        first_empty_home(buildings) == Some(i),
    decreases i,
{
    if i > 0 {
        assert(!spec_has_empty_home(buildings[0].usage));
        let rest = buildings.drop_first();
        assert forall|q: int| 0 <= q < i - 1 implies !spec_has_empty_home(
            (#[trigger] rest[q]).usage,
        ) by {
            assert(rest[q] == buildings[q + 1]);
        }
        assert(rest[i - 1] == buildings[i]);
        lemma_first_empty_home_at(rest, i - 1);
    }
}

/// A town without any empty dwelling has no first one.
proof fn lemma_first_empty_home_none(buildings: Seq<Building>)
    requires
        forall|q: int|
            0 <= q < buildings.len() ==> !spec_has_empty_home((#[trigger] buildings[q]).usage),
    ensures
        first_empty_home(buildings) is None,
    decreases buildings.len(),
{
    if buildings.len() > 0 {
        let rest = buildings.drop_first();
        assert forall|q: int| 0 <= q < rest.len() implies !spec_has_empty_home(
            (#[trigger] rest[q]).usage,
        ) by {
            assert(rest[q] == buildings[q + 1]);
        }
        lemma_first_empty_home_none(rest);
    }
}

/// The first building with an empty dwelling, if any.
fn find_empty_home(data: &SimulationData) -> (r: Option<BuildingId>)
    ensures
        match r {
            Some(b) => b.0 < data.building_manager.buildings@.len() && spec_has_empty_home(
                data.building_manager.bld(b).usage,
            ) && first_empty_home(data.building_manager.buildings@) == Some(b.0 as int),
            None => first_empty_home(data.building_manager.buildings@) is None && forall|q: int|
                0 <= q < data.building_manager.buildings@.len() ==> !spec_has_empty_home(
                    (#[trigger] data.building_manager.buildings@[q]).usage,
                ),
        },
{
    let n = data.building_manager.buildings.len();
    let mut i: usize = 0;
    while i < n
        invariant
            i <= n,
            n == data.building_manager.buildings@.len(),
            forall|q: int|
                0 <= q < i ==> !spec_has_empty_home(
                    (#[trigger] data.building_manager.buildings@[q]).usage,
                ),
        decreases n - i,
    {
        let building = &data.building_manager.buildings[i];
        match building.usage() {
            BuildingUsage::Apartments(homes) => {
                let hn = homes.len();
                let mut h: usize = 0;
                while h < hn
                    invariant
                        h <= hn,
                        hn == homes@.len(),
                        i < n,
                        n == data.building_manager.buildings@.len(),
                        *building == data.building_manager.buildings@[i as int],
                        building.usage == BuildingUsage::Apartments(*homes),
                        forall|q: int|
                            0 <= q < i ==> !spec_has_empty_home(
                                (#[trigger] data.building_manager.buildings@[q]).usage,
                            ),
                        forall|j: int|
                            0 <= j < h ==> (#[trigger] homes@[j]).occupants@.len() != 0,
                    decreases hn - h,
                {
                    if homes[h].is_empty() {
                        proof {
                            assert(homes@[h as int].occupants@.len() == 0);
                            assert(data.building_manager.buildings@[i as int]
                                .usage->Apartments_0@[h as int].occupants@.len() == 0);
                            assert(spec_has_empty_home(
                                data.building_manager.buildings@[i as int].usage,
                            ));
                            lemma_first_empty_home_at(
                                data.building_manager.buildings@,
                                i as int,
                            );
                        }
                        return Some(BuildingId::new(i));
                    }
                    h = h + 1;
                }
            },
            BuildingUsage::House(home) => {
                if home.is_empty() {
                    proof {
                        assert(spec_has_empty_home(
                            data.building_manager.buildings@[i as int].usage,
                        ));
                        lemma_first_empty_home_at(data.building_manager.buildings@, i as int);
                    }
                    return Some(BuildingId::new(i));
                }
            },
        }
        i = i + 1;
    }
    proof {
        lemma_first_empty_home_none(data.building_manager.buildings@);
    }
    None
}

/// The first free lot of the grid, or the first lot of the first block when
/// the town is full.
fn find_best_location(data: &SimulationData) -> (r: (usize, usize))
    ensures
        r.1 < 4,
        (exists|b: int, l: int|
            0 <= b < data.map.blocks@.len() && 0 <= l < 4 && data.map.spec_is_lot_free(b, l))
            ==> (r.0 < data.map.blocks@.len() && data.map.spec_is_lot_free(
            r.0 as int,
            r.1 as int,
        )),
{
    let n = data.map.blocks.len();
    let mut block: usize = 0;
    while block < n
        invariant
            block <= n,
            n == data.map.blocks@.len(),
            forall|b: int, l: int|
                0 <= b < block && 0 <= l < 4 ==> !data.map.spec_is_lot_free(b, l),
        decreases n - block,
    {
        let mut lot: usize = 0;
        while lot < 4
            invariant
                lot <= 4,
                block < n,
                n == data.map.blocks@.len(),
                forall|l: int| 0 <= l < lot ==> !data.map.spec_is_lot_free(block as int, l),
            decreases 4 - lot,
        {
            if data.map.is_lot_free(block, lot) {
                return (block, lot);
            }
            lot = lot + 1;
        }
        block = block + 1;
    }
    (0, 0)
}

/// A home for the characters: the first building with an empty dwelling, or
/// a house newly built by the first of them on the first free lot.
fn find_or_build_new_home(data: &mut SimulationData, character_ids: &Vec<CharacterId>) -> (r:
    BuildingId)
    requires
        character_ids@.len() > 0,
        forall|j: int|
            0 <= j < character_ids@.len() ==> (#[trigger] character_ids@[j]).0 < old(data).character_manager.characters@.len(),
        old(data).building_manager.buildings@.len() < usize::MAX,
        first_empty_home(old(data).building_manager.buildings@) is None ==> (exists|b: int, l: int|
            0 <= b < old(data).map.blocks@.len() && 0 <= l < 4 && old(data).map.spec_is_lot_free(b, l)),
    ensures
        r.0 < final(data).building_manager.buildings@.len(),
        final(data).date == old(data).date,
        final(data).character_name_generator == old(data).character_name_generator,
        final(data).character_manager.characters@.len() == old(data).character_manager.characters@.len(),
        forall|i: int|
            0 <= i < old(data).character_manager.characters@.len()
                ==> crate::character_usecase::same_but_building_relations(
                old(data).character_manager.characters@[i],
                #[trigger] final(data).character_manager.characters@[i],
            ),
        forall|i: int, b: BuildingId|
            0 <= i < old(data).character_manager.characters@.len() ==> (#[trigger] final(data).character_manager.characters@[i].has_building_edge(
                BuildingRelationType::Occupant,
                b,
            ) <==> old(data).character_manager.characters@[i].has_building_edge(
                BuildingRelationType::Occupant,
                b,
            )),
        forall|i: int|
            0 <= i < old(data).character_manager.characters@.len() && i != character_ids@[0].0
                ==> #[trigger] final(data).character_manager.characters@[i] == old(
                data,
            ).character_manager.characters@[i],
        final(data).building_manager.buildings@.len() >= old(data).building_manager.buildings@.len(),
        forall|q: int|
            0 <= q < old(data).building_manager.buildings@.len() ==> #[trigger] final(data).building_manager.buildings@[q] == old(data).building_manager.buildings@[q],
        match first_empty_home(old(data).building_manager.buildings@) {
            Some(i) => r.0 as int == i && *final(data) == *old(data) && spec_has_empty_home(
                old(data).building_manager.buildings@[i].usage,
            ),
            None => r.0 == old(data).building_manager.buildings@.len() && (final(data).building_manager.bld(
                r,
            ).usage matches BuildingUsage::House(home) && home.occupants@.len() == 0),
        },
{
    if let Some(building_id) = find_empty_home(data) {
        return building_id;
    }
    let location = find_best_location(data);
    let builder = character_ids[0];
    let usage = BuildingUsage::house();
    let ghost pre = *data;
    let built = build(data, location.0, location.1, usage, builder, builder);
    proof {
        assert forall|i: int, b: BuildingId|
            0 <= i < pre.character_manager.characters@.len() implies (#[trigger] data
            .character_manager.characters@[i].has_building_edge(
            BuildingRelationType::Occupant,
            b,
        ) <==> pre.character_manager.characters@[i].has_building_edge(
            BuildingRelationType::Occupant,
            b,
        )) by {
            let rels = data.character_manager.characters@[i].building_relations@;
            let old_rels = pre.character_manager.characters@[i].building_relations@;
            if i == builder.0 {
                assert(rels == old_rels.push(
                    crate::building_relation::BuildingRelation {
                        relation_type: BuildingRelationType::Builder,
                        id: built,
                    },
                ).push(
                    crate::building_relation::BuildingRelation {
                        relation_type: BuildingRelationType::Owner,
                        id: built,
                    },
                ));
                if data.character_manager.characters@[i].has_building_edge(
                    BuildingRelationType::Occupant,
                    b,
                ) {
                    let e = choose|e: int|
                        0 <= e < rels.len() && rels[e]
                            == (crate::building_relation::BuildingRelation {
                            relation_type: BuildingRelationType::Occupant,
                            id: b,
                        });
                    assert(e < old_rels.len());
                    assert(old_rels[e] == rels[e]);
                }
                if pre.character_manager.characters@[i].has_building_edge(
                    BuildingRelationType::Occupant,
                    b,
                ) {
                    let e = choose|e: int|
                        0 <= e < old_rels.len() && old_rels[e]
                            == (crate::building_relation::BuildingRelation {
                            relation_type: BuildingRelationType::Occupant,
                            id: b,
                        });
                    assert(rels[e] == old_rels[e]);
                }
            } else {
                assert(data.character_manager.characters@[i]
                    == pre.character_manager.characters@[i]);
            }
        }
    }
    built
}

/// Move the characters into the first building with an empty dwelling,
/// building a new house on the first free lot when the town has none.
/// The reused building must be a house, and none of the movers may already
/// occupy it; the movers end up as the sole occupants of that house.
pub fn relocate(data: &mut SimulationData, character_ids: Vec<CharacterId>)
    requires
        character_ids@.len() > 0,
        character_ids@.no_duplicates(),
        old(data).character_manager.characters@.len() <= usize::MAX,
        forall|j: int|
            0 <= j < character_ids@.len() ==> (#[trigger] character_ids@[j]).0 < old(data).character_manager.characters@.len(),
        forall|j: int, b: BuildingId|
            0 <= j < character_ids@.len() && #[trigger] old(data).character_manager.chr(
                character_ids@[j],
            ).has_building_edge(BuildingRelationType::Occupant, b) ==> b.0 < old(
                data,
            ).building_manager.buildings@.len(),
        old(data).building_manager.buildings@.len() < usize::MAX,
        match first_empty_home(old(data).building_manager.buildings@) {
            Some(i) => old(data).building_manager.buildings@[i].usage is House && (forall|j: int|
                0 <= j < character_ids@.len() ==> !old(data).character_manager.chr(
                    #[trigger] character_ids@[j],
                ).has_building_edge(BuildingRelationType::Occupant, BuildingId(i as usize))),
            None => (exists|b: int, l: int|
                0 <= b < old(data).map.blocks@.len() && 0 <= l < 4 && old(
                    data,
                ).map.spec_is_lot_free(b, l)),
        },
    ensures
        final(data).character_manager.characters@.len() == old(data).character_manager.characters@.len(),
        forall|j: int, b: BuildingId|
            0 <= j < character_ids@.len() ==> (#[trigger] final(data).character_manager.chr(
                character_ids@[j],
            ).has_building_edge(BuildingRelationType::Occupant, b) <==> b.0 as int
                == relocation_target(*old(data))),
        forall|i: int|
            0 <= i < old(data).character_manager.characters@.len() && !character_ids@.contains(
                CharacterId(i as usize),
            ) ==> #[trigger] final(data).character_manager.characters@[i] == old(data).character_manager.characters@[i],
        relocation_target(*old(data)) < final(data).building_manager.buildings@.len(),
        final(data).building_manager.buildings@[relocation_target(*old(data))].usage matches BuildingUsage::House(home)
            && home.occupants@ == character_ids@,
{
    let ghost d0 = *old(data);
    let ghost target = relocation_target(d0);
    let building_id = find_or_build_new_home(data, &character_ids);
    proof {
        if first_empty_home(d0.building_manager.buildings@) is Some {
            assert(*data == d0);
            assert(spec_has_empty_home(data.building_manager.bld(building_id).usage));
            assert(data.building_manager.bld(building_id).usage is House);
        } else {
            assert(building_id.0 == d0.building_manager.buildings@.len());
        }
        assert(building_id.0 as int == target);
        assert(data.building_manager.bld(building_id).usage matches BuildingUsage::House(home)
            && home.occupants@.len() == 0);
    }
    proof {
        assert forall|j: int, b: BuildingId|
            0 <= j < character_ids@.len() && #[trigger] data.character_manager.chr(
            character_ids@[j],
        ).has_building_edge(BuildingRelationType::Occupant, b) implies (b.0
            < data.building_manager.buildings@.len() && b != building_id) by {
            let i = character_ids@[j].0 as int;
            assert(0 <= i < d0.character_manager.characters@.len());
            assert(data.character_manager.characters@[i].has_building_edge(
                BuildingRelationType::Occupant,
                b,
            ) <==> d0.character_manager.characters@[i].has_building_edge(
                BuildingRelationType::Occupant,
                b,
            ));
            assert(d0.character_manager.chr(character_ids@[j]).has_building_edge(
                BuildingRelationType::Occupant,
                b,
            ));
            assert(b.0 < d0.building_manager.buildings@.len());
            if first_empty_home(d0.building_manager.buildings@) is Some {
                assert(b != BuildingId((building_id.0 as int) as usize));
                assert(b != building_id);
            } else {
                assert(b.0 != building_id.0);
            }
        }
    }
    relocate_to_house(data, character_ids, building_id);
    proof {
        assert forall|j: int, b: BuildingId| 0 <= j < character_ids@.len() implies (
        #[trigger] data.character_manager.chr(character_ids@[j]).has_building_edge(
            BuildingRelationType::Occupant,
            b,
        ) <==> b.0 as int == target) by {
            if b.0 as int == target {
                assert(b.0 == building_id.0);
                assert(b == building_id);
            }
        }
        assert(data.building_manager.buildings@[target] == data.building_manager.bld(
            building_id,
        ));
    }
}

} // verus!
