use vstd::prelude::*;
use crate::building::{Building, BuildingId, BuildingMgr, BuildingUsage};
use crate::building_relation::{BuildingRelation, BuildingRelationType};
use crate::character::{Character, CharacterId, CharacterMgr};
use crate::character_usecase::same_but_building_relations;
use crate::SimulationData;

verus! {

/// An element is in a flattened sequence of sequences exactly when one of
/// the inner sequences holds it.
proof fn lemma_flatten_membership(seqs: Seq<Seq<CharacterId>>, x: CharacterId)
    ensures
        seqs.flatten().contains(x) <==> exists|k: int|
            0 <= k < seqs.len() && (#[trigger] seqs[k]).contains(x),
    decreases seqs.len(),
{
    if seqs.len() == 0 {
        assert(seqs.flatten() =~= Seq::<CharacterId>::empty());
    } else {
        let rest = seqs.drop_first();
        lemma_flatten_membership(rest, x);
        let f = seqs.first();
        let rf = rest.flatten();
        assert(seqs.flatten() == f + rf);
        assert((f + rf).contains(x) <==> f.contains(x) || rf.contains(x)) by {
            if (f + rf).contains(x) {
                let j = choose|j: int| 0 <= j < (f + rf).len() && (f + rf)[j] == x;
                if j < f.len() {
                    assert(f[j] == x);
                } else {
                    assert(rf[j - f.len()] == x);
                }
            }
            if f.contains(x) {
                let j = choose|j: int| 0 <= j < f.len() && f[j] == x;
                assert((f + rf)[j] == x);
            }
            if rf.contains(x) {
                let j = choose|j: int| 0 <= j < rf.len() && rf[j] == x;
                assert((f + rf)[f.len() + j] == x);
            }
        }
        assert forall|k: int| 0 <= k < seqs.len() && (#[trigger] seqs[k]).contains(x) implies (
        f.contains(x) || exists|k2: int| 0 <= k2 < rest.len() && (#[trigger] rest[k2]).contains(
            x,
        )) by {
            if k > 0 {
                assert(rest[k - 1] == seqs[k]);
            }
        }
        assert forall|k2: int|
            0 <= k2 < rest.len() && (#[trigger] rest[k2]).contains(x) implies exists|k: int|
            0 <= k < seqs.len() && (#[trigger] seqs[k]).contains(x) by {
            assert(seqs[k2 + 1] == rest[k2]);
        }
        if f.contains(x) {
            assert(seqs[0] == f);
        }
    }
}

/// The first building a list of building edges ties a character to with the
/// given edge type.
pub open spec fn spec_first_building_edge(
    rels: Seq<BuildingRelation>,
    t: BuildingRelationType,
) -> Option<BuildingId>
    decreases rels.len(),
{
    if rels.len() == 0 {
        None
    } else if rels[0].relation_type == t {
        Some(rels[0].id)
    } else {
        spec_first_building_edge(rels.drop_first(), t)
    }
}

/// Collect the buildings a character is tied to with one edge type into a
/// duplicate-free id list.
pub fn get_building_relation(
    manager: &CharacterMgr,
    id: CharacterId,
    relation_type: BuildingRelationType,
) -> (r: Vec<BuildingId>)
    requires
        manager.valid(id),
    ensures
        r@.no_duplicates(),
        forall|b: BuildingId| #[trigger] r@.contains(b) <==> manager.chr(id).has_building_edge(
            relation_type,
            b,
        ),
{
    let character = &manager.characters[id.0];
    let mut result: Vec<BuildingId> = Vec::new();
    let n = character.building_relations.len();
    let mut i: usize = 0;
    while i < n
        invariant
            i <= n,
            n == character.building_relations@.len(),
            *character == manager.chr(id),
            result@.no_duplicates(),
            forall|b: BuildingId| #[trigger] result@.contains(b) <==> exists|k: int|
                0 <= k < i && character.building_relations@[k] == (BuildingRelation {
                    relation_type,
                    id: b,
                }),
        decreases n - i,
    {
        let relation = character.building_relations[i];
        let ghost result0 = result@;
        let mut already = false;
        if relation.relation_type == relation_type {
            let rn = result.len();
            let mut q: usize = 0;
            while q < rn
                invariant
                    q <= rn,
                    rn == result@.len(),
                    result@ == result0,
                    already == exists|p: int| 0 <= p < q && result0[p] == relation.id,
                decreases rn - q,
            {
                if result[q] == relation.id {
                    proof {
                        assert(result0[q as int] == relation.id);
                    }
                    already = true;
                }
                q = q + 1;
            }
            proof {
                assert(already == result0.contains(relation.id));
            }
            if !already {
                result.push(relation.id);
            }
        }
        proof {
            if relation.relation_type == relation_type && !already {
                assert(result@ == result0.push(relation.id));
            }
            assert forall|b: BuildingId| #[trigger] result@.contains(b) <==> exists|k: int|
                0 <= k < i + 1 && character.building_relations@[k] == (BuildingRelation {
                    relation_type,
                    id: b,
                }) by {
                if relation.relation_type == relation_type && !already {
                    vstd::seq_lib::lemma_seq_contains_after_push(result0, relation.id, b);
                }
                if result@.contains(b) && !result0.contains(b) {
                    assert(character.building_relations@[i as int] == (BuildingRelation {
                        relation_type,
                        id: b,
                    }));
                }
                if exists|k: int|
                    0 <= k < i + 1 && character.building_relations@[k] == (BuildingRelation {
                        relation_type,
                        id: b,
                    }) {
                    let k = choose|k: int|
                        0 <= k < i + 1 && character.building_relations@[k] == (BuildingRelation {
                            relation_type,
                            id: b,
                        });
                    if k < i {
                        assert(result0.contains(b));
                    } else {
                        assert(relation == (BuildingRelation { relation_type, id: b }));
                        assert(result@.contains(b));
                    }
                }
            }
        }
        i = i + 1;
    }
    result
}

/// The ids living in the building, across all its dwellings, without
/// duplicates.
pub fn get_occupants(manager: &BuildingMgr, id: BuildingId) -> (r: Vec<CharacterId>)
    requires
        manager.valid(id),
    ensures
        r@.no_duplicates(),
        forall|x: CharacterId| #[trigger] r@.contains(x) <==> manager.bld(
            id,
        ).usage.all_occupants().contains(x),
{
    let building = &manager.buildings[id.0];
    let mut result: Vec<CharacterId> = Vec::new();
    match building.usage() {
        BuildingUsage::Apartments(homes) => {
            let hn = homes.len();
            let ghost flat = building.usage.all_occupants();

            let mut h: usize = 0;
            while h < hn
                invariant
                    h <= hn,
                    hn == homes@.len(),
                    *building == manager.bld(id),
                    building.usage == BuildingUsage::Apartments(*homes),
                    result@.no_duplicates(),
                    forall|x: CharacterId| #[trigger] result@.contains(x) <==> exists|k: int|
                        0 <= k < h && (#[trigger] homes@[k]).occupants@.contains(x),
                decreases hn - h,
            {
                let home = &homes[h];
                let on = home.occupants.len();
                let mut o: usize = 0;
                while o < on
                    invariant
                        o <= on,
                        h < hn,
                        hn == homes@.len(),
                        on == home.occupants@.len(),
                        *home == homes@[h as int],
                        result@.no_duplicates(),
                        forall|x: CharacterId| #[trigger] result@.contains(x) <==> (exists|
                            k: int,
                        |
                            0 <= k < h && (#[trigger] homes@[k]).occupants@.contains(x)) || exists|
                            l: int,
                        |
                            0 <= l < o && home.occupants@[l] == x,
                    decreases on - o,
                {
                    let occupant = home.occupants[o];
                    let ghost result0 = result@;
                    let already = crate::relation_get::contains_id(&result, occupant);
                    if !already {
                        result.push(occupant);
                    }
                    proof {
                        assert forall|x: CharacterId| #[trigger] result@.contains(x) <==> (exists|
                            k: int,
                        |
                            0 <= k < h && (#[trigger] homes@[k]).occupants@.contains(x)) || exists|
                            l: int,
                        |
                            0 <= l < o + 1 && home.occupants@[l] == x by {
                            if !already {
                                vstd::seq_lib::lemma_seq_contains_after_push(
                                    result0,
                                    occupant,
                                    x,
                                );
                            }
                            if x == occupant {
                                assert(home.occupants@[o as int] == x);
                                assert(result@.contains(x));
                            }
                            if exists|l: int| 0 <= l < o + 1 && home.occupants@[l] == x {
                                let l = choose|l: int|
                                    0 <= l < o + 1 && home.occupants@[l] == x;
                                if l < o {
                                    assert(result0.contains(x));
                                }
                            }
                        }
                    }
                    o = o + 1;
                }
                proof {
                    assert forall|x: CharacterId| #[trigger] result@.contains(x) <==> exists|
                        k: int,
                    |
                        0 <= k < h + 1 && (#[trigger] homes@[k]).occupants@.contains(x) by {
                        if result@.contains(x) {
                            if exists|l: int| 0 <= l < on && home.occupants@[l] == x {
                                assert(homes@[h as int].occupants@.contains(x));
                            }
                        }
                        if exists|k: int|
                            0 <= k < h + 1 && (#[trigger] homes@[k]).occupants@.contains(x) {
                            let k = choose|k: int|
                                0 <= k < h + 1 && (#[trigger] homes@[k]).occupants@.contains(x);
                            if k == h {
                                let l = choose|l: int|
                                    0 <= l < on && homes@[k].occupants@[l] == x;
                                assert(home.occupants@[l] == x);
                            }
                        }
                    }
                }
                h = h + 1;
            }
            proof {
                let mapped = homes@.map_values(|home: crate::building::Home| home.occupants@);
                assert forall|x: CharacterId| #[trigger] result@.contains(x) <==> flat.contains(
                    x,
                ) by {
                    lemma_flatten_membership(mapped, x);
                    assert forall|k: int| 0 <= k < hn implies (#[trigger] mapped[k])
                        == homes@[k].occupants@ by {}
                    if result@.contains(x) {
                        let k = choose|k: int|
                            0 <= k < hn && (#[trigger] homes@[k]).occupants@.contains(x);
                        assert(mapped[k].contains(x));
                    }
                    if flat.contains(x) {
                        let k = choose|k: int|
                            0 <= k < mapped.len() && (#[trigger] mapped[k]).contains(x);
                        assert(homes@[k].occupants@.contains(x));
                    }
                }
            }
        },
        BuildingUsage::House(home) => {
            let on = home.occupants.len();
            let mut o: usize = 0;
            while o < on
                invariant
                    o <= on,
                    on == home.occupants@.len(),
                    *building == manager.bld(id),
                    building.usage == BuildingUsage::House(*home),
                    result@.no_duplicates(),
                    forall|x: CharacterId| #[trigger] result@.contains(x) <==> exists|l: int|
                        0 <= l < o && home.occupants@[l] == x,
                decreases on - o,
            {
                let occupant = home.occupants[o];
                let ghost result0 = result@;
                let already = crate::relation_get::contains_id(&result, occupant);
                if !already {
                    result.push(occupant);
                }
                proof {
                    assert forall|x: CharacterId| #[trigger] result@.contains(x) <==> exists|
                        l: int,
                    |
                        0 <= l < o + 1 && home.occupants@[l] == x by {
                        if !already {
                            vstd::seq_lib::lemma_seq_contains_after_push(result0, occupant, x);
                        }
                        if x == occupant {
                            assert(home.occupants@[o as int] == x);
                            assert(result@.contains(x));
                        }
                        if exists|l: int| 0 <= l < o + 1 && home.occupants@[l] == x {
                            let l = choose|l: int| 0 <= l < o + 1 && home.occupants@[l] == x;
                            if l < o {
                                assert(result0.contains(x));
                            }
                        }
                    }
                }
                o = o + 1;
            }
        },
    }
    result
}

/// The building a character currently occupies: the first occupancy edge.
pub fn get_building_occupied_by(manager: &CharacterMgr, id: CharacterId) -> (r: Option<
    BuildingId,
>)
    requires
        manager.valid(id),
    ensures
        r == spec_first_building_edge(
            manager.chr(id).building_relations@,
            BuildingRelationType::Occupant,
        ),
{
    let character = &manager.characters[id.0];
    let n = character.building_relations.len();
    let mut i: usize = 0;
    proof {
        assert(character.building_relations@.skip(0) =~= character.building_relations@);
    }
    while i < n
        invariant
            i <= n,
            n == character.building_relations@.len(),
            *character == manager.chr(id),
            spec_first_building_edge(
                character.building_relations@,
                BuildingRelationType::Occupant,
            ) == spec_first_building_edge(
                character.building_relations@.skip(i as int),
                BuildingRelationType::Occupant,
            ),
        decreases n - i,
    {
        let relation = character.building_relations[i];
        proof {
            assert(character.building_relations@.skip(i as int)[0]
                == character.building_relations@[i as int]);
        }
        if relation.relation_type == BuildingRelationType::Occupant {
            return Some(relation.id);
        }
        proof {
            assert(character.building_relations@.skip(i as int).drop_first()
                =~= character.building_relations@.skip(i + 1));
        }
        i = i + 1;
    }
    proof {
        assert(character.building_relations@.skip(n as int).len() == 0);
    }
    None
}

pub fn get_owner(manager: &BuildingMgr, id: BuildingId) -> (r: CharacterId)
    requires
        manager.valid(id),
    ensures
        r == manager.bld(id).owner,
{
    *(&manager.buildings[id.0]).owner()
}

pub fn get_builder(manager: &BuildingMgr, id: BuildingId) -> (r: CharacterId)
    requires
        manager.valid(id),
    ensures
        r == manager.bld(id).builder,
{
    *(&manager.buildings[id.0]).builder()
}

/// The buildings a character owns.
pub fn get_buildings_owned_by(manager: &CharacterMgr, id: CharacterId) -> (r: Vec<BuildingId>)
    requires
        manager.valid(id),
    ensures
        r@.no_duplicates(),
        forall|b: BuildingId| #[trigger] r@.contains(b) <==> manager.chr(id).has_building_edge(
            BuildingRelationType::Owner,
            b,
        ),
{
    get_building_relation(manager, id, BuildingRelationType::Owner)
}

/// The buildings a character built.
pub fn get_buildings_build_by(manager: &CharacterMgr, id: CharacterId) -> (r: Vec<BuildingId>)
    requires
        manager.valid(id),
    ensures
        r@.no_duplicates(),
        forall|b: BuildingId| #[trigger] r@.contains(b) <==> manager.chr(id).has_building_edge(
            BuildingRelationType::Builder,
            b,
        ),
{
    get_building_relation(manager, id, BuildingRelationType::Builder)
}

/// Record an ownership edge from the character to the building.
pub fn add_ownership(manager: &mut CharacterMgr, building_id: BuildingId, owner_id: CharacterId)
    requires
        old(manager).valid(owner_id),
    ensures
        final(manager).characters@ == old(manager).characters@.update(
            owner_id.0 as int,
            Character {
                building_relations: final(manager).chr(owner_id).building_relations,
                ..old(manager).chr(owner_id)
            },
        ),
        final(manager).chr(owner_id).building_relations@ == old(manager).chr(
            owner_id,
        ).building_relations@.push(
            BuildingRelation { relation_type: BuildingRelationType::Owner, id: building_id },
        ),
{
    let owner_relation = BuildingRelation::new(BuildingRelationType::Owner, building_id);
    let character = &mut manager.characters[owner_id.0];
    character.get_building_relations_mut().push(owner_relation);
}

/// Move a building's ownership from one character to another: the building
/// records the new owner, the old owner loses the ownership edge, and the
/// new owner gains one.
pub fn update_owner(
    data: &mut SimulationData,
    building_id: BuildingId,
    owner_id: CharacterId,
    new_owner_id: CharacterId,
)
    requires
        old(data).building_manager.valid(building_id),
        old(data).character_manager.valid(owner_id),
        old(data).character_manager.valid(new_owner_id),
    ensures
        final(data).building_manager.buildings@ == old(data).building_manager.buildings@.update(
            building_id.0 as int,
            Building { owner: new_owner_id, ..old(data).building_manager.bld(building_id) },
        ),
        final(data).character_manager.characters@.len() == old(
            data,
        ).character_manager.characters@.len(),
        owner_id != new_owner_id ==> {
            &&& final(data).character_manager.chr(owner_id) == (Character {
                building_relations: final(data).character_manager.chr(
                    owner_id,
                ).building_relations,
                ..old(data).character_manager.chr(owner_id)
            })
            &&& final(data).character_manager.chr(owner_id).building_relations@ == old(
                data,
            ).character_manager.chr(owner_id).building_relations@.filter(
                |r: BuildingRelation|
                    !(r.relation_type == BuildingRelationType::Owner && r.id == building_id),
            )
            &&& final(data).character_manager.chr(new_owner_id) == (Character {
                building_relations: final(data).character_manager.chr(
                    new_owner_id,
                ).building_relations,
                ..old(data).character_manager.chr(new_owner_id)
            })
            &&& final(data).character_manager.chr(new_owner_id).building_relations@ == old(
                data,
            ).character_manager.chr(new_owner_id).building_relations@.push(
                BuildingRelation {
                    relation_type: BuildingRelationType::Owner,
                    id: building_id,
                },
            )
        },
        forall|i: int|
            0 <= i < old(data).character_manager.characters@.len() && i != owner_id.0 && i
                != new_owner_id.0 ==> #[trigger] final(data).character_manager.characters@[i]
                == old(data).character_manager.characters@[i],
        final(data).date == old(data).date,
        final(data).map == old(data).map,
        final(data).character_name_generator == old(data).character_name_generator,
        owner_id == new_owner_id ==> {
            &&& final(data).character_manager.chr(owner_id) == (Character {
                building_relations: final(data).character_manager.chr(
                    owner_id,
                ).building_relations,
                ..old(data).character_manager.chr(owner_id)
            })
            &&& final(data).character_manager.chr(owner_id).building_relations@ == old(
                data,
            ).character_manager.chr(owner_id).building_relations@.filter(
                |r: BuildingRelation|
                    !(r.relation_type == BuildingRelationType::Owner && r.id == building_id),
            ).push(
                BuildingRelation {
                    relation_type: BuildingRelationType::Owner,
                    id: building_id,
                },
            )
        },
{
    let building = match data.building_manager.get_mut(building_id) {
        Some(building) => building,
        None => {
            proof {
                assert(false);
            }
            return ;
        },
    };
    building.update_owner(new_owner_id);
    let character = &mut data.character_manager.characters[owner_id.0];
    character.remove_ownership(building_id);
    add_ownership(&mut data.character_manager, building_id, new_owner_id);
}

/// Remove the character from the dwelling lists of the building it occupies,
/// if it occupies one.
pub fn remove_occupant_from_building(data: &mut SimulationData, id: CharacterId)
    requires
        old(data).character_manager.valid(id),
        forall|b: BuildingId|
            old(data).character_manager.chr(id).has_building_edge(
                BuildingRelationType::Occupant,
                b,
            ) ==> b.0 < old(data).building_manager.buildings@.len(),
    ensures
        final(data).character_manager == old(data).character_manager,
        final(data).date == old(data).date,
        final(data).map == old(data).map,
        final(data).character_name_generator == old(data).character_name_generator,
        final(data).building_manager.buildings@.len() == old(
            data,
        ).building_manager.buildings@.len(),
        match spec_first_building_edge(
            old(data).character_manager.chr(id).building_relations@,
            BuildingRelationType::Occupant,
        ) {
            Some(b) => {
                &&& forall|q: int|
                    0 <= q < old(data).building_manager.buildings@.len() && q != b.0
                        ==> #[trigger] final(data).building_manager.buildings@[q] == old(
                        data,
                    ).building_manager.buildings@[q]
                &&& final(data).building_manager.bld(b) == (Building {
                    usage: final(data).building_manager.bld(b).usage,
                    ..old(data).building_manager.bld(b)
                })
                &&& forall|x: CharacterId|
                    #[trigger] final(data).building_manager.bld(b).usage.all_occupants()
                        .contains(x) <==> old(data).building_manager.bld(b).usage
                        .all_occupants().contains(x) && x != id
            },
            None => final(data).building_manager == old(data).building_manager,
        },
{
    let occupied = get_building_occupied_by(&data.character_manager, id);
    if let Some(building_id) = occupied {
        proof {
            lemma_first_building_edge_is_edge(
                old(data).character_manager.chr(id).building_relations@,
                BuildingRelationType::Occupant,
                building_id,
            );
            assert(old(data).character_manager.chr(id).has_building_edge(
                BuildingRelationType::Occupant,
                building_id,
            ));
        }
        let building = match data.building_manager.get_mut(building_id) {
            Some(building) => building,
            None => {
                proof {
                    assert(false);
                }
                return ;
            },
        };
        building.remove_occupant(id);
        proof {
            lemma_filtered_occupants(
                old(data).building_manager.bld(building_id),
                data.building_manager.bld(building_id),
                id,
            );
        }
    }
}

/// The first edge the lookup yields really is an edge of the list.
proof fn lemma_first_building_edge_is_edge(
    rels: Seq<BuildingRelation>,
    t: BuildingRelationType,
    b: BuildingId,
)
    requires
        spec_first_building_edge(rels, t) == Some(b),
    ensures
        exists|k: int|
            0 <= k < rels.len() && rels[k] == (BuildingRelation { relation_type: t, id: b }),
    decreases rels.len(),
{
    if rels.len() > 0 {
        if rels[0].relation_type == t {
            assert(rels[0] == (BuildingRelation { relation_type: t, id: b }));
        } else {
            lemma_first_building_edge_is_edge(rels.drop_first(), t, b);
            let k = choose|k: int|
                0 <= k < rels.drop_first().len() && rels.drop_first()[k] == (BuildingRelation {
                    relation_type: t,
                    id: b,
                });
            assert(rels[k + 1] == (BuildingRelation { relation_type: t, id: b }));
        }
    }
}

/// Filtering a character out of every dwelling removes exactly that
/// character from the building's occupants.
proof fn lemma_filtered_occupants(pre: Building, post: Building, id: CharacterId)
    requires
        match pre.usage {
            BuildingUsage::Apartments(homes) => {
                &&& post.usage matches BuildingUsage::Apartments(new_homes)
                &&& new_homes@.len() == homes@.len()
                &&& forall|j: int|
                    0 <= j < homes@.len() ==> (#[trigger] new_homes@[j]).occupants@
                        == homes@[j].occupants@.filter(
                        |occupant_id: CharacterId| occupant_id != id,
                    )
            },
            BuildingUsage::House(home) => {
                &&& post.usage matches BuildingUsage::House(new_home)
                &&& new_home.occupants@ == home.occupants@.filter(
                    |occupant_id: CharacterId| occupant_id != id,
                )
            },
        },
    ensures
        forall|x: CharacterId|
            #[trigger] post.usage.all_occupants().contains(x) <==> pre.usage.all_occupants()
                .contains(x) && x != id,
{
    let pred = |occupant_id: CharacterId| occupant_id != id;
    assert forall|x: CharacterId|
        #[trigger] post.usage.all_occupants().contains(x) <==> pre.usage.all_occupants()
            .contains(x) && x != id by {
        match pre.usage {
            BuildingUsage::Apartments(homes) => {
                let new_homes = post.usage->Apartments_0;
                let pre_mapped = homes@.map_values(
                    |home: crate::building::Home| home.occupants@,
                );
                let post_mapped = new_homes@.map_values(
                    |home: crate::building::Home| home.occupants@,
                );
                lemma_flatten_membership(pre_mapped, x);
                lemma_flatten_membership(post_mapped, x);
                if post.usage.all_occupants().contains(x) {
                    let k = choose|k: int|
                        0 <= k < post_mapped.len() && (#[trigger] post_mapped[k]).contains(x);
                    assert(new_homes@[k].occupants@.contains(x));
                    homes@[k].occupants@.lemma_filter_contains_rev(pred, x);
                    homes@[k].occupants@.lemma_filter_pred(
                        pred,
                        choose|p: int|
                            0 <= p < new_homes@[k].occupants@.len()
                                && new_homes@[k].occupants@[p] == x,
                    );
                    assert(pre_mapped[k].contains(x));
                    let p = choose|p: int|
                        0 <= p < new_homes@[k].occupants@.len() && new_homes@[k].occupants@[p]
                            == x;
                    assert(pred(new_homes@[k].occupants@[p]));
                    assert(x != id);
                }
                if pre.usage.all_occupants().contains(x) && x != id {
                    let k = choose|k: int|
                        0 <= k < pre_mapped.len() && (#[trigger] pre_mapped[k]).contains(x);
                    let p = choose|p: int|
                        0 <= p < homes@[k].occupants@.len() && homes@[k].occupants@[p] == x;
                    homes@[k].occupants@.lemma_filter_contains(pred, p);
                    assert(new_homes@[k].occupants@.contains(x));
                    assert(post_mapped[k].contains(x));
                }
            },
            BuildingUsage::House(home) => {
                let new_home = post.usage->House_0;
                if post.usage.all_occupants().contains(x) {
                    new_home.occupants@;
                    home.occupants@.lemma_filter_contains_rev(pred, x);
                    let p = choose|p: int|
                        0 <= p < new_home.occupants@.len() && new_home.occupants@[p] == x;
                    home.occupants@.lemma_filter_pred(pred, p);
                    assert(x != id);
                }
                if pre.usage.all_occupants().contains(x) && x != id {
                    let p = choose|p: int|
                        0 <= p < home.occupants@.len() && home.occupants@[p] == x;
                    home.occupants@.lemma_filter_contains(pred, p);
                }
            },
        }
    }
}

/// Move the characters into an empty house: they become its occupants, they
/// leave the dwelling lists of the buildings they occupied, and each one's
/// occupancy edge is replaced by one to the new house.
pub fn relocate_to_house(
    data: &mut SimulationData,
    character_ids: Vec<CharacterId>,
    building_id: BuildingId,
)
    requires
        old(data).building_manager.valid(building_id),
        old(data).building_manager.bld(building_id).usage matches BuildingUsage::House(home)
            && home.occupants@.len() == 0,
        character_ids@.no_duplicates(),
        forall|j: int|
            0 <= j < character_ids@.len() ==> (#[trigger] character_ids@[j]).0 < old(
                data,
            ).character_manager.characters@.len(),
        forall|j: int, b: BuildingId|
            0 <= j < character_ids@.len() && #[trigger] old(data).character_manager.chr(
                character_ids@[j],
            ).has_building_edge(BuildingRelationType::Occupant, b) ==> b.0 < old(
                data,
            ).building_manager.buildings@.len() && b != building_id,
    ensures
        final(data).date == old(data).date,
        final(data).map == old(data).map,
        final(data).character_name_generator == old(data).character_name_generator,
        final(data).building_manager.buildings@.len() == old(
            data,
        ).building_manager.buildings@.len(),
        final(data).character_manager.characters@.len() == old(
            data,
        ).character_manager.characters@.len(),
        final(data).building_manager.bld(building_id).usage matches BuildingUsage::House(home)
            && home.occupants@ == character_ids@,
        forall|j: int, b: BuildingId|
            0 <= j < character_ids@.len() ==> (#[trigger] final(data).character_manager.chr(
                character_ids@[j],
            ).has_building_edge(BuildingRelationType::Occupant, b) <==> b == building_id),
        forall|i: int|
            0 <= i < old(data).character_manager.characters@.len() ==> same_but_building_relations(
                old(data).character_manager.characters@[i],
                #[trigger] final(data).character_manager.characters@[i],
            ),
        forall|i: int|
            0 <= i < old(data).character_manager.characters@.len() && !character_ids@.contains(
                CharacterId(i as usize),
            ) ==> #[trigger] final(data).character_manager.characters@[i] == old(
                data,
            ).character_manager.characters@[i],
        forall|b: int, x: CharacterId|
            0 <= b < old(data).building_manager.buildings@.len() && b != building_id.0 ==> ((
            #[trigger] final(data).building_manager.buildings@[b].usage.all_occupants().contains(
                x,
            )) ==> old(data).building_manager.buildings@[b].usage.all_occupants().contains(x)),
        forall|b: int|
            0 <= b < old(data).building_manager.buildings@.len() && b != building_id.0
                ==> #[trigger] final(data).building_manager.buildings@[b] == (Building {
                usage: final(data).building_manager.buildings@[b].usage,
                ..old(data).building_manager.buildings@[b]
            }),
        forall|j: int|
            0 <= j < character_ids@.len() ==> match spec_first_building_edge(
                old(data).character_manager.chr(#[trigger] character_ids@[j]).building_relations@,
                BuildingRelationType::Occupant,
            ) {
                Some(b) => !final(data).building_manager.bld(b).usage.all_occupants().contains(
                    character_ids@[j],
                ),
                None => true,
            },
{
    let ghost d0 = *old(data);
    let building = match data.building_manager.get_mut(building_id) {
        Some(building) => building,
        None => {
            proof {
                assert(false);
            }
            return ;
        },
    };
    match building.get_usage_mut() {
        BuildingUsage::House(home) => {
            if home.is_empty() {
                home.get_occupants_mut().extend_from_slice(character_ids.as_slice());
            } else {
                proof {
                    assert(false);
                }
            }
        },
        BuildingUsage::Apartments(..) => {
            proof {
                assert(false);
            }
        },
    }
    proof {
        assert(data.building_manager.bld(building_id).usage matches BuildingUsage::House(h)
            && h.occupants@ =~= character_ids@);
    }
    let n = character_ids.len();
    let mut j: usize = 0;
    while j < n
        invariant
            j <= n,
            n == character_ids@.len(),
            character_ids@.no_duplicates(),
            data.building_manager.buildings@.len() == d0.building_manager.buildings@.len(),
            data.character_manager.characters@.len() == d0.character_manager.characters@.len(),
            building_id.0 < d0.building_manager.buildings@.len(),
            data.date == d0.date,
            data.map == d0.map,
            data.character_name_generator == d0.character_name_generator,
            forall|q: int|
                0 <= q < character_ids@.len() ==> (#[trigger] character_ids@[q]).0
                    < d0.character_manager.characters@.len(),
            forall|q: int, b: BuildingId|
                0 <= q < character_ids@.len() && #[trigger] d0.character_manager.chr(
                    character_ids@[q],
                ).has_building_edge(BuildingRelationType::Occupant, b) ==> b.0
                    < d0.building_manager.buildings@.len() && b != building_id,
            data.building_manager.bld(building_id).usage matches BuildingUsage::House(home)
                && home.occupants@ == character_ids@,
            forall|q: int|
                j <= q < character_ids@.len() ==> #[trigger] data.character_manager.chr(
                    character_ids@[q],
                ) == d0.character_manager.chr(character_ids@[q]),
            forall|q: int, b: BuildingId|
                0 <= q < j ==> (#[trigger] data.character_manager.chr(
                    character_ids@[q],
                ).has_building_edge(BuildingRelationType::Occupant, b) <==> b == building_id),
            forall|q: int|
                0 <= q < j ==> match spec_first_building_edge(
                    d0.character_manager.chr(#[trigger] character_ids@[q]).building_relations@,
                    BuildingRelationType::Occupant,
                ) {
                    Some(b) => !data.building_manager.bld(b).usage.all_occupants().contains(
                        character_ids@[q],
                    ),
                    None => true,
                },
            forall|i: int|
                0 <= i < d0.character_manager.characters@.len()
                    ==> same_but_building_relations(
                    d0.character_manager.characters@[i],
                    #[trigger] data.character_manager.characters@[i],
                ),
            forall|i: int|
                0 <= i < d0.character_manager.characters@.len() && !character_ids@.contains(
                    CharacterId(i as usize),
                ) ==> #[trigger] data.character_manager.characters@[i]
                    == d0.character_manager.characters@[i],
            forall|b: int, x: CharacterId|
                0 <= b < d0.building_manager.buildings@.len() && b != building_id.0 ==> ((
                #[trigger] data.building_manager.buildings@[b].usage.all_occupants().contains(
                    x,
                )) ==> d0.building_manager.buildings@[b].usage.all_occupants().contains(x)),
            forall|b: int|
                0 <= b < d0.building_manager.buildings@.len() && b != building_id.0
                    ==> #[trigger] data.building_manager.buildings@[b] == (Building {
                    usage: data.building_manager.buildings@[b].usage,
                    ..d0.building_manager.buildings@[b]
                }),
        decreases n - j,
    {
        let character_id = character_ids[j];
        proof {
            assert(character_ids@[j as int] == character_id);
            assert(data.character_manager.chr(character_id) == d0.character_manager.chr(
                character_id,
            ));
        }
        let ghost pre = *data;
        remove_occupant_from_building(data, character_id);
        proof {
            assert(data.building_manager.bld(building_id).usage
                == pre.building_manager.bld(building_id).usage) by {
                match spec_first_building_edge(
                    pre.character_manager.chr(character_id).building_relations@,
                    BuildingRelationType::Occupant,
                ) {
                    Some(b) => {
                        lemma_first_building_edge_is_edge(
                            pre.character_manager.chr(character_id).building_relations@,
                            BuildingRelationType::Occupant,
                            b,
                        );
                        assert(pre.character_manager.chr(character_id).has_building_edge(
                            BuildingRelationType::Occupant,
                            b,
                        ));
                        assert(b != building_id);
                        assert(data.building_manager.buildings@[building_id.0 as int]
                            == pre.building_manager.buildings@[building_id.0 as int]);
                    },
                    None => {},
                }
            }
        }
        let character = &mut data.character_manager.characters[character_id.0];
        character.relocate(building_id);
        proof {
            assert forall|b: BuildingId|
                #[trigger] data.character_manager.chr(character_id).has_building_edge(
                    BuildingRelationType::Occupant,
                    b,
                ) <==> b == building_id by {
                let rels = data.character_manager.chr(character_id).building_relations@;
                let old_rels = pre.character_manager.chr(character_id).building_relations@;
                let pred = |r: BuildingRelation|
                    r.relation_type != BuildingRelationType::Occupant;
                if data.character_manager.chr(character_id).has_building_edge(
                    BuildingRelationType::Occupant,
                    b,
                ) {
                    let k = choose|k: int|
                        0 <= k < rels.len() && rels[k] == (BuildingRelation {
                            relation_type: BuildingRelationType::Occupant,
                            id: b,
                        });
                    if k < rels.len() - 1 {
                        old_rels.lemma_filter_pred(pred, k);
                        assert(false);
                    } else {
                        assert(b == building_id);
                    }
                }
                if b == building_id {
                    let last = rels.len() - 1;
                    assert(rels[last] == (BuildingRelation {
                        relation_type: BuildingRelationType::Occupant,
                        id: building_id,
                    }));
                }
            }
            assert forall|q: int| 0 <= q < character_ids@.len() && q != j implies #[trigger] data
                .character_manager.chr(character_ids@[q]) == pre.character_manager.chr(
                character_ids@[q],
            ) by {
                assert(character_ids@[q] != character_ids@[j as int]);
                assert(character_ids@[q].0 != character_id.0);
            }
            assert forall|q: int|
                0 <= q < j + 1 implies match spec_first_building_edge(
                d0.character_manager.chr(#[trigger] character_ids@[q]).building_relations@,
                BuildingRelationType::Occupant,
            ) {
                Some(b) => !data.building_manager.bld(b).usage.all_occupants().contains(
                    character_ids@[q],
                ),
                None => true,
            } by {
                let removed = spec_first_building_edge(
                    pre.character_manager.chr(character_id).building_relations@,
                    BuildingRelationType::Occupant,
                );
                assert(pre.character_manager.chr(character_id) == d0.character_manager.chr(
                    character_id,
                ));
                match spec_first_building_edge(
                    d0.character_manager.chr(character_ids@[q]).building_relations@,
                    BuildingRelationType::Occupant,
                ) {
                    Some(b) => {
                        if q == j {
                            assert(removed == Some(b));
                            assert(!data.building_manager.bld(b).usage.all_occupants().contains(
                                character_ids@[q],
                            ));
                        } else {
                            assert(character_ids@[q] != character_ids@[j as int]);
                            lemma_first_building_edge_is_edge(
                                d0.character_manager.chr(
                                    character_ids@[q],
                                ).building_relations@,
                                BuildingRelationType::Occupant,
                                b,
                            );
                            assert(d0.character_manager.chr(
                                character_ids@[q],
                            ).has_building_edge(BuildingRelationType::Occupant, b));
                            assert(b.0 < d0.building_manager.buildings@.len());
                            match removed {
                                Some(rb) => {
                                    if rb == b {
                                        assert(!pre.building_manager.bld(b).usage
                                            .all_occupants().contains(character_ids@[q]));
                                    } else {
                                        assert(data.building_manager.buildings@[b.0 as int]
                                            == pre.building_manager.buildings@[b.0 as int]);
                                    }
                                },
                                None => {
                                    assert(data.building_manager == pre.building_manager);
                                },
                            }
                        }
                    },
                    None => {},
                }
            }
        }
        j = j + 1;
    }
}

/// Construct a new building on a free lot: the store records it, the map
/// places it, and the builder and owner characters record their edges.
pub fn build(
    data: &mut SimulationData,
    block: usize,
    lot: usize,
    usage: BuildingUsage,
    builder: CharacterId,
    owner: CharacterId,
) -> (building_id: BuildingId)
    requires
        old(data).character_manager.valid(builder),
        old(data).character_manager.valid(owner),
        old(data).building_manager.buildings@.len() < usize::MAX,
        lot < 4,
        block < old(data).map.blocks@.len(),
        old(data).map.spec_is_lot_free(block as int, lot as int),
    ensures
        building_id.0 == old(data).building_manager.buildings@.len(),
        final(data).building_manager.buildings@ == old(data).building_manager.buildings@.push(
            Building {
                id: building_id,
                usage,
                construction_date: old(data).date,
                builder,
                owner,
            },
        ),
        final(data).map.spec_building(block as int, lot as int) == Some(building_id),
        final(data).map.blocks@.len() == old(data).map.blocks@.len(),
        final(data).date == old(data).date,
        final(data).character_name_generator == old(data).character_name_generator,
        final(data).character_manager.characters@.len() == old(
            data,
        ).character_manager.characters@.len(),
        forall|i: int|
            0 <= i < old(data).character_manager.characters@.len()
                ==> same_but_building_relations(
                old(data).character_manager.characters@[i],
                #[trigger] final(data).character_manager.characters@[i],
            ),
        forall|i: int|
            0 <= i < old(data).character_manager.characters@.len() && i != builder.0 && i
                != owner.0 ==> #[trigger] final(data).character_manager.characters@[i] == old(
                data,
            ).character_manager.characters@[i],
        builder != owner ==> {
            &&& final(data).character_manager.chr(builder).building_relations@ == old(
                data,
            ).character_manager.chr(builder).building_relations@.push(
                BuildingRelation {
                    relation_type: BuildingRelationType::Builder,
                    id: building_id,
                },
            )
            &&& final(data).character_manager.chr(owner).building_relations@ == old(
                data,
            ).character_manager.chr(owner).building_relations@.push(
                BuildingRelation {
                    relation_type: BuildingRelationType::Owner,
                    id: building_id,
                },
            )
        },
        builder == owner ==> final(data).character_manager.chr(builder).building_relations@
            == old(data).character_manager.chr(builder).building_relations@.push(
            BuildingRelation { relation_type: BuildingRelationType::Builder, id: building_id },
        ).push(BuildingRelation { relation_type: BuildingRelationType::Owner, id: building_id }),
{
    let date = data.date;
    let building_id = data.building_manager.create(usage, date, builder, owner);
    data.map.add_building(building_id, block, lot);
    let builder_relation = BuildingRelation::new(BuildingRelationType::Builder, building_id);
    let builder_character = &mut data.character_manager.characters[builder.0];
    builder_character.get_building_relations_mut().push(builder_relation);
    let owner_relation = BuildingRelation::new(BuildingRelationType::Owner, building_id);
    let owner_character = &mut data.character_manager.characters[owner.0];
    owner_character.get_building_relations_mut().push(owner_relation);
    building_id
}

/// Move the characters into the house a parent occupies: they join its
/// dwelling list when it is a single house, and their occupancy edges are
/// redirected to it either way.
pub fn join_parents_home(
    data: &mut SimulationData,
    character_ids: Vec<CharacterId>,
    parent_id: CharacterId,
)
    requires
        old(data).character_manager.valid(parent_id),
        spec_first_building_edge(
            old(data).character_manager.chr(parent_id).building_relations@,
            BuildingRelationType::Occupant,
        ) matches Some(b) && b.0 < old(data).building_manager.buildings@.len(),
        forall|j: int|
            0 <= j < character_ids@.len() ==> (#[trigger] character_ids@[j]).0 < old(
                data,
            ).character_manager.characters@.len(),
    ensures
        final(data).date == old(data).date,
        final(data).map == old(data).map,
        final(data).character_name_generator == old(data).character_name_generator,
        final(data).character_manager.characters@.len() == old(
            data,
        ).character_manager.characters@.len(),
        final(data).building_manager.buildings@.len() == old(
            data,
        ).building_manager.buildings@.len(),
        forall|i: int|
            0 <= i < old(data).character_manager.characters@.len()
                ==> same_but_building_relations(
                old(data).character_manager.characters@[i],
                #[trigger] final(data).character_manager.characters@[i],
            ),
        forall|i: int|
            0 <= i < old(data).character_manager.characters@.len() && !character_ids@.contains(
                CharacterId(i as usize),
            ) ==> #[trigger] final(data).character_manager.characters@[i] == old(
                data,
            ).character_manager.characters@[i],
        ({
            let home_id = spec_first_building_edge(
                old(data).character_manager.chr(parent_id).building_relations@,
                BuildingRelationType::Occupant,
            )->Some_0;
            &&& forall|j: int, b: BuildingId|
                0 <= j < character_ids@.len() ==> (#[trigger] final(data).character_manager.chr(character_ids@[j]).has_building_edge(
                    BuildingRelationType::Occupant,
                    b,
                ) <==> b == home_id)
            &&& forall|j: int, t: BuildingRelationType, b: BuildingId|
                0 <= j < character_ids@.len() && t != BuildingRelationType::Occupant ==> (
                #[trigger] final(data).character_manager.chr(
                    character_ids@[j],
                ).has_building_edge(t, b) <==> old(data).character_manager.chr(
                    character_ids@[j],
                ).has_building_edge(t, b))
            &&& forall|q: int|
                0 <= q < old(data).building_manager.buildings@.len() && q != home_id.0
                    ==> #[trigger] final(data).building_manager.buildings@[q] == old(
                    data,
                ).building_manager.buildings@[q]
            &&& (old(data).building_manager.bld(home_id).usage matches BuildingUsage::House(
                home,
            ) ==> final(data).building_manager.bld(home_id).usage matches
                BuildingUsage::House(new_home) && new_home.occupants@ == home.occupants@
                + character_ids@)
        }),
{
    let ghost d0 = *old(data);
    let building_id = match get_building_occupied_by(&data.character_manager, parent_id) {
        Some(building_id) => building_id,
        None => {
            proof {
                assert(false);
            }
            return ;
        },
    };
    let building = match data.building_manager.get_mut(building_id) {
        Some(building) => building,
        None => {
            proof {
                assert(false);
            }
            return ;
        },
    };
    match building.get_usage_mut() {
        BuildingUsage::House(home) => {
            home.get_occupants_mut().extend_from_slice(character_ids.as_slice());
        },
        BuildingUsage::Apartments(..) => {},
    }
    let n = character_ids.len();
    let mut j: usize = 0;
    while j < n
        invariant
            j <= n,
            n == character_ids@.len(),
            building_id == spec_first_building_edge(
                d0.character_manager.chr(parent_id).building_relations@,
                BuildingRelationType::Occupant,
            )->Some_0,
            data.date == d0.date,
            data.map == d0.map,
            data.character_name_generator == d0.character_name_generator,
            data.character_manager.characters@.len() == d0.character_manager.characters@.len(),
            data.building_manager.buildings@.len() == d0.building_manager.buildings@.len(),
            forall|q: int|
                0 <= q < character_ids@.len() ==> (#[trigger] character_ids@[q]).0
                    < d0.character_manager.characters@.len(),
            forall|i: int|
                0 <= i < d0.character_manager.characters@.len()
                    ==> same_but_building_relations(
                    d0.character_manager.characters@[i],
                    #[trigger] data.character_manager.characters@[i],
                ),
            forall|i: int|
                0 <= i < d0.character_manager.characters@.len() && !character_ids@.contains(
                    CharacterId(i as usize),
                ) ==> #[trigger] data.character_manager.characters@[i]
                    == d0.character_manager.characters@[i],
            forall|q: int, b: BuildingId|
                0 <= q < j ==> (#[trigger] data.character_manager.chr(
                    character_ids@[q],
                ).has_building_edge(BuildingRelationType::Occupant, b) <==> b == building_id),
            forall|q: int, t: BuildingRelationType, b: BuildingId|
                0 <= q < character_ids@.len() && t != BuildingRelationType::Occupant ==> (
                #[trigger] data.character_manager.chr(character_ids@[q]).has_building_edge(
                    t,
                    b,
                ) <==> d0.character_manager.chr(character_ids@[q]).has_building_edge(t, b)),
            forall|q: int|
                0 <= q < d0.building_manager.buildings@.len() && q != building_id.0
                    ==> #[trigger] data.building_manager.buildings@[q]
                    == d0.building_manager.buildings@[q],
            d0.building_manager.bld(building_id).usage matches BuildingUsage::House(home)
                ==> data.building_manager.bld(building_id).usage matches BuildingUsage::House(
                new_home,
            ) && new_home.occupants@ == home.occupants@ + character_ids@,
            d0.building_manager.bld(building_id).usage matches BuildingUsage::Apartments(..)
                ==> data.building_manager.bld(building_id)
                == d0.building_manager.bld(building_id),
        decreases n - j,
    {
        let character_id = character_ids[j];
        proof {
            assert(character_ids@[j as int] == character_id);
        }
        let ghost pre = *data;
        let character = &mut data.character_manager.characters[character_id.0];
        character.relocate(building_id);
        proof {
            assert forall|b: BuildingId|
                #[trigger] data.character_manager.chr(character_id).has_building_edge(
                    BuildingRelationType::Occupant,
                    b,
                ) <==> b == building_id by {
                let rels = data.character_manager.chr(character_id).building_relations@;
                let old_rels = pre.character_manager.chr(character_id).building_relations@;
                let pred = |r: BuildingRelation|
                    r.relation_type != BuildingRelationType::Occupant;
                if data.character_manager.chr(character_id).has_building_edge(
                    BuildingRelationType::Occupant,
                    b,
                ) {
                    let k = choose|k: int|
                        0 <= k < rels.len() && rels[k] == (BuildingRelation {
                            relation_type: BuildingRelationType::Occupant,
                            id: b,
                        });
                    if k < rels.len() - 1 {
                        old_rels.lemma_filter_pred(pred, k);
                        assert(false);
                    } else {
                        assert(b == building_id);
                    }
                }
                if b == building_id {
                    let last = rels.len() - 1;
                    assert(rels[last] == (BuildingRelation {
                        relation_type: BuildingRelationType::Occupant,
                        id: building_id,
                    }));
                }
            }
            assert forall|q: int|
                0 <= q < j implies (#[trigger] data.character_manager.chr(
                character_ids@[q],
            ) == pre.character_manager.chr(character_ids@[q]) || character_ids@[q]
                == character_id) by {
                if character_ids@[q] != character_id {
                    assert(character_ids@[q].0 != character_id.0);
                }
            }
            assert forall|t: BuildingRelationType, b: BuildingId|
                t != BuildingRelationType::Occupant implies (#[trigger] data.character_manager
                .chr(character_id).has_building_edge(t, b) <==> pre.character_manager.chr(
                character_id,
            ).has_building_edge(t, b)) by {
                let rels = data.character_manager.chr(character_id).building_relations@;
                let old_rels = pre.character_manager.chr(character_id).building_relations@;
                let pred = |r: BuildingRelation|
                    r.relation_type != BuildingRelationType::Occupant;
                if data.character_manager.chr(character_id).has_building_edge(t, b) {
                    let k = choose|k: int|
                        0 <= k < rels.len() && rels[k] == (BuildingRelation {
                            relation_type: t,
                            id: b,
                        });
                    assert(k < rels.len() - 1);
                    old_rels.filter(pred).lemma_filter_contains_rev(pred, rels[k]);
                    old_rels.lemma_filter_contains_rev(pred, rels[k]);
                    let e = choose|e: int| 0 <= e < old_rels.len() && old_rels[e] == rels[k];
                }
                if pre.character_manager.chr(character_id).has_building_edge(t, b) {
                    let e = choose|e: int|
                        0 <= e < old_rels.len() && old_rels[e] == (BuildingRelation {
                            relation_type: t,
                            id: b,
                        });
                    old_rels.lemma_filter_contains(pred, e);
                    let k = choose|k: int|
                        0 <= k < old_rels.filter(pred).len() && old_rels.filter(pred)[k]
                            == old_rels[e];
                    assert(rels[k] == old_rels[e]);
                }
            }
            assert forall|q: int, t: BuildingRelationType, b: BuildingId|
                0 <= q < character_ids@.len() && t != BuildingRelationType::Occupant implies (
            #[trigger] data.character_manager.chr(character_ids@[q]).has_building_edge(t, b)
                <==> d0.character_manager.chr(character_ids@[q]).has_building_edge(t, b)) by {
                if character_ids@[q] != character_id {
                    assert(character_ids@[q].0 != character_id.0);
                    assert(data.character_manager.chr(character_ids@[q])
                        == pre.character_manager.chr(character_ids@[q]));
                }
            }
        }
        j = j + 1;
    }
}

} // verus!
