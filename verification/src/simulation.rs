use vstd::prelude::*;
use crate::building::{Building, BuildingId};
use crate::building_relation::{BuildingRelation, BuildingRelationType};
use crate::birth::{birth, family_edge_to_newborn, newborn_edge};
use crate::building_usecase::spec_first_building_edge;
use crate::character::{Character, CharacterId, CharacterMgr};
use crate::character_usecase::get_gender;
use crate::death::{death, has_living_child_besides, has_living_grandchild_besides, has_living_spouse_besides, spec_heir_besides};
use crate::gender::Gender;
use crate::marriage::{get_married_couples, get_unmarried, in_law_gain, in_law_recv, marry};
use crate::relation::{Relation, RelationType, RelativeType};
use crate::relation_get::{contains_id, get_relatives, relative_ids};
use crate::rng::{spec_next, RandomNumberGenerator};
use crate::time::Date;
use crate::SimulationData;

verus! {

/// The usage constant that keeps death rolls apart from other event rolls.
pub const DEATH_USAGE: u32 = 1;

/// The usage constant that keeps marriage rolls apart from other event rolls.
pub const MARRIAGE_USAGE: u32 = 2;

/// The usage constant that keeps birth rolls apart from other event rolls.
pub const BIRTH_USAGE: u32 = 3;

/// Every birth date lies in the past, also for the dead.
pub open spec fn ages_ok(m: CharacterMgr, date: crate::time::Date) -> bool {
    forall|i: int|
        0 <= i < m.characters@.len() ==> ((#[trigger] m.characters@[i]).birth_date.0 <= date.0
            && match m.characters@[i].death_date {
            Some(d) => m.characters@[i].birth_date.0 <= d.0 && d.0 <= date.0,
            None => true,
        })
}

/// The living characters above the minimum age whose death roll comes in
/// under the risk that grows with age: they die this year.
fn calculate_dying(data: &SimulationData, rng: &RandomNumberGenerator, min_age: u32) -> (r: Vec<
    CharacterId,
>)
    requires
        data.character_manager.ids_consistent(),
        ages_ok(data.character_manager, data.date),
    ensures
        r@.no_duplicates(),
        forall|x: CharacterId| #[trigger] r@.contains(x) <==> (data.character_manager.valid(x)
            && data.character_manager.chr(x).spec_is_alive() && {
            let age = data.date.0 - data.character_manager.chr(x).birth_date.0;
            &&& age >= min_age
            &&& spec_next(*rng, data.date.0, x.0, DEATH_USAGE) % 100 < (age - min_age) / 2
        }),
{
    let mut dying: Vec<CharacterId> = Vec::new();
    let n = data.character_manager.characters.len();
    let mut i: usize = 0;
    while i < n
        invariant
            i <= n,
            n == data.character_manager.characters@.len(),
            data.character_manager.ids_consistent(),
            ages_ok(data.character_manager, data.date),
            dying@.no_duplicates(),
            forall|x: CharacterId| #[trigger] dying@.contains(x) <==> (x.0 < i
                && data.character_manager.chr(x).spec_is_alive() && {
                let age = data.date.0 - data.character_manager.chr(x).birth_date.0;
                &&& age >= min_age
                &&& spec_next(*rng, data.date.0, x.0, DEATH_USAGE) % 100 < (age - min_age) / 2
            }),
        decreases n - i,
    {
        let character = &data.character_manager.characters[i];
        let ghost dying0 = dying@;
        let mut selected = false;
        if character.is_alive() {
            let age = character.get_age(data.date);
            if age >= min_age {
                let risk_of_death = (age - min_age) / 2;
                let roll = rng.roll_d100(data.date.get_year(), character.id().id(), DEATH_USAGE);
                if roll < risk_of_death {
                    dying.push(*character.id());
                    selected = true;
                }
            }
        }
        proof {
            let id = data.character_manager.characters@[i as int].id;
            assert(id == CharacterId(i));
            if selected {
                assert(!dying0.contains(id));
                assert(dying@ == dying0.push(id));
            }
            assert forall|x: CharacterId| #[trigger] dying@.contains(x) <==> (x.0 < i + 1
                && data.character_manager.chr(x).spec_is_alive() && {
                let age = data.date.0 - data.character_manager.chr(x).birth_date.0;
                &&& age >= min_age
                &&& spec_next(*rng, data.date.0, x.0, DEATH_USAGE) % 100 < (age - min_age) / 2
            }) by {
                if selected {
                    vstd::seq_lib::lemma_seq_contains_after_push(dying0, id, x);
                }
                if x.0 == i {
                    assert(data.character_manager.chr(x) == data.character_manager.characters@[
                        i as int
                    ]);
                }
            }
        }
        i = i + 1;
    }
    dying
}

/// Whether every building edge of every record points into a store of the
/// given size.
pub open spec fn building_edges_ok(m: CharacterMgr, buildings: int) -> bool {
    forall|i: int, k: int|
        0 <= i < m.characters@.len() && 0 <= k < m.characters@[i].building_relations@.len()
            ==> (#[trigger] m.characters@[i].building_relations@[k]).id.0 < buildings
}

/// Whether a character dies this year: alive, at or above the minimum age,
/// with a roll under the risk that grows with age past the threshold.
pub open spec fn dying_pred(
    m: CharacterMgr,
    date: Date,
    rng: RandomNumberGenerator,
    min_age: u32,
    x: CharacterId,
) -> bool {
    &&& m.valid(x)
    &&& m.chr(x).spec_is_alive()
    &&& date.0 - m.chr(x).birth_date.0 >= min_age
    &&& spec_next(rng, date.0, x.0, DEATH_USAGE) % 100 < ((date.0 - m.chr(x).birth_date.0)
        - min_age) / 2
}

/// What one death leaves behind: the record is marked dead and unhoused,
/// every kinship edge and identity field is kept, and the dead character's
/// buildings pass to its heir, or stay where they are when it has none.
pub open spec fn death_post(d0: SimulationData, d1: SimulationData, id: CharacterId) -> bool {
    &&& d0.character_manager.valid(id)
    &&& d1.date == d0.date
    &&& d1.map == d0.map
    &&& d1.character_name_generator == d0.character_name_generator
    &&& d1.character_manager.characters@.len() == d0.character_manager.characters@.len()
    &&& d1.building_manager.buildings@.len() == d0.building_manager.buildings@.len()
    &&& d1.character_manager.chr(id).death_date == Some(d0.date)
    &&& forall|i: int|
        0 <= i < d0.character_manager.characters@.len() && i != id.0
            ==> #[trigger] d1.character_manager.characters@[i].death_date == d0.character_manager
            .characters@[i].death_date
    &&& forall|i: int|
        0 <= i < d0.character_manager.characters@.len() ==> #[trigger] d1.character_manager
            .characters@[i].relations == d0.character_manager.characters@[i].relations
    &&& forall|i: int|
        0 <= i < d0.character_manager.characters@.len() ==> ((#[trigger] d1.character_manager
            .characters@[i]).id == d0.character_manager.characters@[i].id && d1.character_manager
            .characters@[i].name == d0.character_manager.characters@[i].name && d1
            .character_manager.characters@[i].gender == d0.character_manager.characters@[i].gender
            && d1.character_manager.characters@[i].birth_date == d0.character_manager
            .characters@[i].birth_date)
    &&& d1.character_manager.wf()
    &&& forall|b: BuildingId|
        !#[trigger] d1.character_manager.chr(id).has_building_edge(
            BuildingRelationType::Occupant,
            b,
        )
    &&& forall|q: int|
        0 <= q < d0.building_manager.buildings@.len() ==> #[trigger] d1.building_manager
            .buildings@[q] == (Building {
            owner: d1.building_manager.buildings@[q].owner,
            usage: d1.building_manager.buildings@[q].usage,
            ..d0.building_manager.buildings@[q]
        })
    &&& forall|i: int, t: BuildingRelationType, b: BuildingId|
        0 <= i < d0.character_manager.characters@.len() && #[trigger] d1.character_manager
            .characters@[i].has_building_edge(t, b) ==> (d0.character_manager.characters@[i]
            .has_building_edge(t, b) || (t == BuildingRelationType::Owner && d0.character_manager
            .chr(id).has_building_edge(BuildingRelationType::Owner, b)))
    &&& !(has_living_spouse_besides(d0.character_manager, id) || has_living_child_besides(
        d0.character_manager,
        id,
    ) || has_living_grandchild_besides(d0.character_manager, id)) ==> {
        &&& forall|q: int|
            0 <= q < d0.building_manager.buildings@.len() ==> #[trigger] d1.building_manager
                .buildings@[q].owner == d0.building_manager.buildings@[q].owner
        &&& forall|b: BuildingId|
            #[trigger] d1.character_manager.chr(id).has_building_edge(
                BuildingRelationType::Owner,
                b,
            ) <==> d0.character_manager.chr(id).has_building_edge(BuildingRelationType::Owner, b)
        &&& forall|i: int|
            0 <= i < d0.character_manager.characters@.len() && i != id.0
                ==> #[trigger] d1.character_manager.characters@[i] == d0.character_manager
                .characters@[i]
    }
    &&& (has_living_spouse_besides(d0.character_manager, id) || has_living_child_besides(
        d0.character_manager,
        id,
    ) || has_living_grandchild_besides(d0.character_manager, id)) ==> (exists|h: CharacterId|
        {
            &&& #[trigger] spec_heir_besides(d0.character_manager, id, h)
            &&& forall|b: BuildingId|
                !#[trigger] d1.character_manager.chr(id).has_building_edge(
                    BuildingRelationType::Owner,
                    b,
                )
            &&& forall|b: BuildingId|
                d0.character_manager.chr(id).has_building_edge(BuildingRelationType::Owner, b)
                    ==> #[trigger] d1.building_manager.bld(b).owner == h && d1.character_manager
                    .chr(h).has_building_edge(BuildingRelationType::Owner, b)
            &&& forall|q: int|
                0 <= q < d0.building_manager.buildings@.len() && !d0.character_manager.chr(
                    id,
                ).has_building_edge(BuildingRelationType::Owner, BuildingId(q as usize))
                    ==> #[trigger] d1.building_manager.buildings@[q].owner == d0.building_manager
                    .buildings@[q].owner
            &&& exists|transferred: Seq<BuildingId>|
                {
                    &&& #[trigger] transferred.no_duplicates()
                    &&& forall|b: BuildingId| #[trigger]
                        transferred.contains(b) <==> d0.character_manager.chr(id).has_building_edge(
                            BuildingRelationType::Owner,
                            b,
                        )
                    &&& d1.character_manager.chr(h).building_relations@ == d0.character_manager.chr(
                        h,
                    ).building_relations@ + transferred.map_values(
                        |b: BuildingId| BuildingRelation {
                            relation_type: BuildingRelationType::Owner,
                            id: b,
                        },
                    )
                }
        })
}

/// One link of the death pass: some character selected by the dying
/// predicate dies, with the full per-death record bookkeeping.
pub open spec fn death_step(
    d0: SimulationData,
    rng: RandomNumberGenerator,
    pre: SimulationData,
    post: SimulationData,
) -> bool {
    exists|x: CharacterId|
        dying_pred(d0.character_manager, d0.date, rng, 60, x) && #[trigger] death_post(
            pre,
            post,
            x,
        )
}

/// The death pass is a chain of single deaths: each intermediate state
/// follows from the one before it by one selected character dying and its
/// buildings passing to its heir.
pub open spec fn death_trace_ok(
    d0: SimulationData,
    d1: SimulationData,
    rng: RandomNumberGenerator,
    states: Seq<SimulationData>,
) -> bool {
    &&& states.len() >= 1
    &&& states[0] == d0
    &&& states[states.len() - 1] == d1
    &&& forall|j: int|
        0 <= j < states.len() - 1 ==> #[trigger] death_step(d0, rng, states[j], states[j + 1])
}

/// What the death pass leaves behind: exactly the selected characters die
/// this year, everything else about the records is kept, every building
/// keeps its identity, builder and construction year, and ownership moves
/// only through a chain of per-death transfers to an heir.
pub open spec fn death_pass_post(
    d0: SimulationData,
    d1: SimulationData,
    rng: RandomNumberGenerator,
) -> bool {
    &&& d1.character_manager.wf()
    &&& d1.date == d0.date
    &&& d1.map == d0.map
    &&& d1.character_name_generator == d0.character_name_generator
    &&& d1.character_manager.characters@.len() == d0.character_manager.characters@.len()
    &&& d1.building_manager.buildings@.len() == d0.building_manager.buildings@.len()
    &&& ages_ok(d1.character_manager, d1.date)
    &&& building_edges_ok(d0.character_manager, d0.building_manager.buildings@.len() as int)
        ==> building_edges_ok(
        d1.character_manager,
        d1.building_manager.buildings@.len() as int,
    )
    &&& forall|i: int|
        0 <= i < d0.character_manager.characters@.len() ==> #[trigger] d1.character_manager
            .characters@[i].death_date == (if dying_pred(
            d0.character_manager,
            d0.date,
            rng,
            60,
            CharacterId(i as usize),
        ) {
            Some(d0.date)
        } else {
            d0.character_manager.characters@[i].death_date
        })
    &&& forall|i: int|
        0 <= i < d0.character_manager.characters@.len() ==> #[trigger] d1.character_manager
            .characters@[i].relations == d0.character_manager.characters@[i].relations
    &&& forall|i: int|
        0 <= i < d0.character_manager.characters@.len() ==> ((#[trigger] d1.character_manager
            .characters@[i]).id == d0.character_manager.characters@[i].id
            && d1.character_manager.characters@[i].name == d0.character_manager.characters@[i]
            .name && d1.character_manager.characters@[i].gender == d0.character_manager
            .characters@[i].gender && d1.character_manager.characters@[i].birth_date
            == d0.character_manager.characters@[i].birth_date)
    &&& forall|q: int|
        0 <= q < d0.building_manager.buildings@.len() ==> #[trigger] d1.building_manager
            .buildings@[q] == (Building {
            owner: d1.building_manager.buildings@[q].owner,
            usage: d1.building_manager.buildings@[q].usage,
            ..d0.building_manager.buildings@[q]
        })
    &&& exists|states: Seq<SimulationData>| #[trigger] death_trace_ok(d0, d1, rng, states)
}

/// Run the death pass: exactly the living characters at or above the minimum
/// age whose roll comes in under the age-driven risk die, in store order, and
/// each one's buildings pass to its heir.
pub fn simulate_death(data: &mut SimulationData, rng: &RandomNumberGenerator)
    requires
        old(data).character_manager.wf(),
        ages_ok(old(data).character_manager, old(data).date),
        old(data).character_manager.characters@.len() <= usize::MAX,
        old(data).building_manager.buildings@.len() <= usize::MAX,
        building_edges_ok(
            old(data).character_manager,
            old(data).building_manager.buildings@.len() as int,
        ),
    ensures
        death_pass_post(*old(data), *final(data), *rng),
{
    let ghost d0 = *old(data);
    let dying = calculate_dying(data, rng, 60);
    proof {
        assert forall|x: CharacterId| #[trigger] dying@.contains(x) <==> dying_pred(
            d0.character_manager,
            d0.date,
            *rng,
            60,
            x,
        ) by {}
    }
    let ghost mut states: Seq<SimulationData> = seq![d0];
    let n = dying.len();
    let mut k: usize = 0;
    while k < n
        invariant
            k <= n,
            n == dying@.len(),
            dying@.no_duplicates(),
            data.character_manager.wf(),
            data.date == d0.date,
            data.map == d0.map,
            data.character_name_generator == d0.character_name_generator,
            ages_ok(data.character_manager, data.date),
            data.character_manager.characters@.len() == d0.character_manager.characters@.len(),
            data.building_manager.buildings@.len() == d0.building_manager.buildings@.len(),
            d0.character_manager.characters@.len() <= usize::MAX,
            d0.building_manager.buildings@.len() <= usize::MAX,
            building_edges_ok(
                data.character_manager,
                d0.building_manager.buildings@.len() as int,
            ),
            forall|x: CharacterId| #[trigger] dying@.contains(x) <==> dying_pred(
                d0.character_manager,
                d0.date,
                *rng,
                60,
                x,
            ),
            states.len() == k + 1,
            states[0] == d0,
            states[k as int] == *data,
            forall|j: int|
                0 <= j < k ==> #[trigger] death_step(d0, *rng, states[j], states[j + 1]),
            forall|i: int|
                0 <= i < d0.character_manager.characters@.len() ==> #[trigger] data
                    .character_manager.characters@[i].death_date == (if dying@.take(
                    k as int,
                ).contains(CharacterId(i as usize)) {
                    Some(d0.date)
                } else {
                    d0.character_manager.characters@[i].death_date
                }),
            forall|i: int|
                0 <= i < d0.character_manager.characters@.len() ==> #[trigger] data
                    .character_manager.characters@[i].relations == d0.character_manager
                    .characters@[i].relations,
            forall|i: int|
                0 <= i < d0.character_manager.characters@.len() ==> ((#[trigger] data
                    .character_manager.characters@[i]).id == d0.character_manager
                    .characters@[i].id && data.character_manager.characters@[i].name
                    == d0.character_manager.characters@[i].name && data.character_manager
                    .characters@[i].gender == d0.character_manager.characters@[i].gender
                    && data.character_manager.characters@[i].birth_date
                    == d0.character_manager.characters@[i].birth_date),
            forall|q: int|
                0 <= q < d0.building_manager.buildings@.len() ==> #[trigger] data
                    .building_manager.buildings@[q] == (Building {
                    owner: data.building_manager.buildings@[q].owner,
                    usage: data.building_manager.buildings@[q].usage,
                    ..d0.building_manager.buildings@[q]
                }),
        decreases n - k,
    {
        let id = dying[k];
        proof {
            assert(dying@[k as int] == id);
            assert(dying@.contains(id));
            assert(dying_pred(d0.character_manager, d0.date, *rng, 60, id));
            // the character has not been processed yet, so it is still alive
            assert(!dying@.take(k as int).contains(id)) by {
                if dying@.take(k as int).contains(id) {
                    let j = choose|j: int| 0 <= j < k && dying@.take(k as int)[j] == id;
                    assert(dying@[j] == dying@[k as int]);
                }
            }
            assert(data.character_manager.chr(id).spec_is_alive());
            // its building edges point into the store
            assert forall|b: BuildingId|
                data.character_manager.chr(id).has_building_edge(
                    BuildingRelationType::Occupant,
                    b,
                ) implies b.0 < data.building_manager.buildings@.len() by {
                let e = choose|e: int|
                    0 <= e < data.character_manager.chr(id).building_relations@.len()
                        && data.character_manager.chr(id).building_relations@[e]
                        == (BuildingRelation {
                        relation_type: BuildingRelationType::Occupant,
                        id: b,
                    });
                assert(data.character_manager.characters@[id.0 as int].building_relations@[e].id.0
                    < d0.building_manager.buildings@.len());
            }
            assert forall|b: BuildingId|
                data.character_manager.chr(id).has_building_edge(
                    BuildingRelationType::Owner,
                    b,
                ) implies b.0 < data.building_manager.buildings@.len() by {
                let e = choose|e: int|
                    0 <= e < data.character_manager.chr(id).building_relations@.len()
                        && data.character_manager.chr(id).building_relations@[e]
                        == (BuildingRelation {
                        relation_type: BuildingRelationType::Owner,
                        id: b,
                    });
                assert(data.character_manager.characters@[id.0 as int].building_relations@[e].id.0
                    < d0.building_manager.buildings@.len());
            }
        }
        let ghost pre = *data;
        death(data, id);
        proof {
            assert(dying@.take(k + 1) =~= dying@.take(k as int).push(id));
            assert forall|i: int|
                0 <= i < d0.character_manager.characters@.len() implies #[trigger] data
                .character_manager.characters@[i].death_date == (if dying@.take(k + 1).contains(
                CharacterId(i as usize),
            ) {
                Some(d0.date)
            } else {
                d0.character_manager.characters@[i].death_date
            }) by {
                vstd::seq_lib::lemma_seq_contains_after_push(
                    dying@.take(k as int),
                    id,
                    CharacterId(i as usize),
                );
                if i == id.0 {
                    assert(CharacterId(i as usize) == id);
                    assert(data.character_manager.chr(id).death_date == Some(pre.date));
                } else {
                    assert(data.character_manager.characters@[i].death_date
                        == pre.character_manager.characters@[i].death_date);
                }
            }
            // every building edge still points into the store
            assert forall|i: int, e: int|
                0 <= i < data.character_manager.characters@.len() && 0 <= e
                    < data.character_manager.characters@[i].building_relations@.len() implies (
            #[trigger] data.character_manager.characters@[i].building_relations@[e]).id.0
                < d0.building_manager.buildings@.len() by {
                let edge = data.character_manager.characters@[i].building_relations@[e];
                assert(data.character_manager.characters@[i].has_building_edge(
                    edge.relation_type,
                    edge.id,
                ));
                assert(pre.character_manager.characters@[i].has_building_edge(
                    edge.relation_type,
                    edge.id,
                ) || pre.character_manager.chr(id).has_building_edge(
                    BuildingRelationType::Owner,
                    edge.id,
                ));
                if pre.character_manager.characters@[i].has_building_edge(
                    edge.relation_type,
                    edge.id,
                ) {
                    let e2 = choose|e2: int|
                        0 <= e2 < pre.character_manager.characters@[i].building_relations@.len()
                            && pre.character_manager.characters@[i].building_relations@[e2]
                            == (BuildingRelation {
                            relation_type: edge.relation_type,
                            id: edge.id,
                        });
                } else {
                    let e2 = choose|e2: int|
                        0 <= e2 < pre.character_manager.chr(id).building_relations@.len()
                            && pre.character_manager.chr(id).building_relations@[e2]
                            == (BuildingRelation {
                            relation_type: BuildingRelationType::Owner,
                            id: edge.id,
                        });
                }
            }
            // the frozen building fields compose across the step
            assert forall|q: int|
                0 <= q < d0.building_manager.buildings@.len() implies #[trigger] data
                .building_manager.buildings@[q] == (Building {
                owner: data.building_manager.buildings@[q].owner,
                usage: data.building_manager.buildings@[q].usage,
                ..d0.building_manager.buildings@[q]
            }) by {
                assert(data.building_manager.buildings@[q] == (Building {
                    owner: data.building_manager.buildings@[q].owner,
                    usage: data.building_manager.buildings@[q].usage,
                    ..pre.building_manager.buildings@[q]
                }));
            }
            // extend the per-death chain by this step
            assert(death_step(d0, *rng, pre, *data)) by {
                assert(dying_pred(d0.character_manager, d0.date, *rng, 60, id));
                assert(death_post(pre, *data, id));
            }
            let states1 = states.push(*data);
            assert forall|j: int| 0 <= j < k + 1 implies #[trigger] death_step(
                d0,
                *rng,
                states1[j],
                states1[j + 1],
            ) by {
                if j < k {
                    assert(states1[j] == states[j]);
                    assert(states1[j + 1] == states[j + 1]);
                } else {
                    assert(states1[j] == states[j]);
                    assert(states[k as int] == pre);
                    assert(states1[j + 1] == *data);
                }
            }
            states = states1;
        }
        k = k + 1;
    }
    proof {
        assert(dying@.take(n as int) =~= dying@);
        assert forall|i: int|
            0 <= i < d0.character_manager.characters@.len() implies #[trigger] data
            .character_manager.characters@[i].death_date == (if dying_pred(
            d0.character_manager,
            d0.date,
            *rng,
            60,
            CharacterId(i as usize),
        ) {
            Some(d0.date)
        } else {
            d0.character_manager.characters@[i].death_date
        }) by {
            assert(dying@.contains(CharacterId(i as usize)) <==> dying_pred(
                d0.character_manager,
                d0.date,
                *rng,
                60,
                CharacterId(i as usize),
            ));
        }
        assert(states[states.len() - 1] == *data);
        assert(death_trace_ok(d0, *data, *rng, states));
    }
}

/// The unmarried living characters inside the age window.
pub fn get_marriageable(data: &SimulationData, min_age: u32, max_age: u32) -> (r: Vec<
    CharacterId,
>)
    requires
        data.character_manager.ids_consistent(),
        ages_ok(data.character_manager, data.date),
    ensures
        r@.no_duplicates(),
        forall|x: CharacterId| #[trigger] r@.contains(x) <==> (data.character_manager.valid(x)
            && !(exists|s: CharacterId|
            data.character_manager.chr(x).has_edge(RelationType::Spouse, s))
            && data.character_manager.chr(x).spec_is_alive() && min_age <= data.date.0
            - data.character_manager.chr(x).birth_date.0 <= max_age),
{
    let unmarried = get_unmarried(&data.character_manager);
    let mut marriageable: Vec<CharacterId> = Vec::new();
    let n = unmarried.len();
    let mut i: usize = 0;
    while i < n
        invariant
            i <= n,
            n == unmarried@.len(),
            unmarried@.no_duplicates(),
            data.character_manager.ids_consistent(),
            ages_ok(data.character_manager, data.date),
            forall|x: CharacterId| #[trigger] unmarried@.contains(x) <==> (
            data.character_manager.valid(x) && !exists|s: CharacterId|
                data.character_manager.chr(x).has_edge(RelationType::Spouse, s)),
            marriageable@.no_duplicates(),
            forall|x: CharacterId| #[trigger] marriageable@.contains(x) <==> (exists|j: int|
                0 <= j < i && unmarried@[j] == x) && data.character_manager.chr(
                x,
            ).spec_is_alive() && min_age <= data.date.0 - data.character_manager.chr(
                x,
            ).birth_date.0 <= max_age,
        decreases n - i,
    {
        let id = unmarried[i];
        proof {
            assert(unmarried@[i as int] == id);
            assert(unmarried@.contains(id));
        }
        let character = &data.character_manager.characters[id.0];
        let ghost m0 = marriageable@;
        let mut pushed = false;
        if character.is_alive() {
            let age = character.get_age(data.date);
            if age >= min_age && age <= max_age {
                proof {
                    if m0.contains(id) {
                        let j = choose|j: int| 0 <= j < i && unmarried@[j] == id;
                        assert(unmarried@[j] == unmarried@[i as int]);
                    }
                }
                marriageable.push(id);
                pushed = true;
            }
        }
        proof {
            assert forall|x: CharacterId| #[trigger] marriageable@.contains(x) <==> (exists|
                j: int,
            |
                0 <= j < i + 1 && unmarried@[j] == x) && data.character_manager.chr(
                x,
            ).spec_is_alive() && min_age <= data.date.0 - data.character_manager.chr(
                x,
            ).birth_date.0 <= max_age by {
                if pushed {
                    vstd::seq_lib::lemma_seq_contains_after_push(m0, id, x);
                }
                if marriageable@.contains(x) && !m0.contains(x) {
                    assert(x == id);
                    assert(unmarried@[i as int] == x);
                }
                if (exists|j: int| 0 <= j < i + 1 && unmarried@[j] == x)
                    && data.character_manager.chr(x).spec_is_alive() && min_age <= data.date.0
                    - data.character_manager.chr(x).birth_date.0 <= max_age {
                    let j = choose|j: int| 0 <= j < i + 1 && unmarried@[j] == x;
                    if j < i {
                        assert(m0.contains(x));
                    } else {
                        assert(x == id);
                    }
                }
            }
        }
        i = i + 1;
    }
    proof {
        assert forall|x: CharacterId| #[trigger] marriageable@.contains(x) <==> (
        data.character_manager.valid(x) && !(exists|s: CharacterId|
            data.character_manager.chr(x).has_edge(RelationType::Spouse, s))
            && data.character_manager.chr(x).spec_is_alive() && min_age <= data.date.0
            - data.character_manager.chr(x).birth_date.0 <= max_age) by {
            if marriageable@.contains(x) {
                let j = choose|j: int| 0 <= j < n && unmarried@[j] == x;
                assert(unmarried@.contains(x));
            }
            if data.character_manager.valid(x) && !(exists|s: CharacterId|
                data.character_manager.chr(x).has_edge(RelationType::Spouse, s))
                && data.character_manager.chr(x).spec_is_alive() && min_age <= data.date.0
                - data.character_manager.chr(x).birth_date.0 <= max_age {
                assert(unmarried@.contains(x));
                let j = choose|j: int| 0 <= j < unmarried@.len() && unmarried@[j] == x;
            }
        }
    }
    marriageable
}

/// The marriage chance of a character: the base chance shrinking by one for
/// every year past the window's lower bound.
pub open spec fn spec_marriage_chance(base_chance: u32, age: u32, min_age: u32) -> u32 {
    if age >= min_age && base_chance >= age - min_age {
        (base_chance - (age - min_age)) as u32
    } else if age >= min_age {
        0
    } else {
        base_chance
    }
}

/// The members of the marriageable pool whose roll selects them for marriage
/// this year.
pub fn select_characters_to_marry(
    data: &SimulationData,
    rng: &RandomNumberGenerator,
    marriageable: &Vec<CharacterId>,
    min_age: u32,
    base_chance: u32,
) -> (r: Vec<CharacterId>)
    requires
        data.character_manager.ids_consistent(),
        ages_ok(data.character_manager, data.date),
        marriageable@.no_duplicates(),
        forall|j: int|
            0 <= j < marriageable@.len() ==> (data.character_manager.valid(
                #[trigger] marriageable@[j],
            ) && data.character_manager.chr(marriageable@[j]).spec_is_alive()),
    ensures
        r@.no_duplicates(),
        forall|x: CharacterId| #[trigger] r@.contains(x) <==> (marriageable@.contains(x)
            && spec_next(*rng, data.date.0, x.0, MARRIAGE_USAGE) % 100 < spec_marriage_chance(
            base_chance,
            (data.date.0 - data.character_manager.chr(x).birth_date.0) as u32,
            min_age,
        )),
{
    let mut selected: Vec<CharacterId> = Vec::new();
    let n = marriageable.len();
    let mut i: usize = 0;
    while i < n
        invariant
            i <= n,
            n == marriageable@.len(),
            data.character_manager.ids_consistent(),
            ages_ok(data.character_manager, data.date),
            marriageable@.no_duplicates(),
            forall|j: int|
                0 <= j < marriageable@.len() ==> (data.character_manager.valid(
                    #[trigger] marriageable@[j],
                ) && data.character_manager.chr(marriageable@[j]).spec_is_alive()),
            selected@.no_duplicates(),
            forall|x: CharacterId| #[trigger] selected@.contains(x) <==> ((exists|j: int|
                0 <= j < i && marriageable@[j] == x) && spec_next(
                *rng,
                data.date.0,
                x.0,
                MARRIAGE_USAGE,
            ) % 100 < spec_marriage_chance(
                base_chance,
                (data.date.0 - data.character_manager.chr(x).birth_date.0) as u32,
                min_age,
            )),
        decreases n - i,
    {
        let id = marriageable[i];
        proof {
            assert(marriageable@[i as int] == id);
            assert(marriageable@.contains(id));
        }
        let character = &data.character_manager.characters[id.0];
        let age = character.get_age(data.date);
        let chance_of_marriage = if age >= min_age {
            if base_chance >= age - min_age {
                base_chance - (age - min_age)
            } else {
                0
            }
        } else {
            base_chance
        };
        let roll = rng.roll_d100(data.date.get_year(), id.id(), MARRIAGE_USAGE);
        let ghost s0 = selected@;
        let mut pushed = false;
        if roll < chance_of_marriage {
            proof {
                if s0.contains(id) {
                    let j = choose|j: int| 0 <= j < i && marriageable@[j] == id;
                    assert(marriageable@[j] == marriageable@[i as int]);
                }
            }
            selected.push(id);
            pushed = true;
        }
        proof {
            assert(age == (data.date.0 - data.character_manager.chr(id).birth_date.0) as u32);
            assert(chance_of_marriage == spec_marriage_chance(
                base_chance,
                (data.date.0 - data.character_manager.chr(id).birth_date.0) as u32,
                min_age,
            ));
            assert forall|x: CharacterId| #[trigger] selected@.contains(x) <==> ((exists|j: int|
                0 <= j < i + 1 && marriageable@[j] == x) && spec_next(
                *rng,
                data.date.0,
                x.0,
                MARRIAGE_USAGE,
            ) % 100 < spec_marriage_chance(
                base_chance,
                (data.date.0 - data.character_manager.chr(x).birth_date.0) as u32,
                min_age,
            )) by {
                if pushed {
                    vstd::seq_lib::lemma_seq_contains_after_push(s0, id, x);
                }
                if selected@.contains(x) && !s0.contains(x) {
                    assert(x == id);
                    assert(marriageable@[i as int] == x);
                }
                if (exists|j: int| 0 <= j < i + 1 && marriageable@[j] == x) && spec_next(
                    *rng,
                    data.date.0,
                    x.0,
                    MARRIAGE_USAGE,
                ) % 100 < spec_marriage_chance(
                    base_chance,
                    (data.date.0 - data.character_manager.chr(x).birth_date.0) as u32,
                    min_age,
                ) {
                    let j = choose|j: int| 0 <= j < i + 1 && marriageable@[j] == x;
                    if j < i {
                        assert(s0.contains(x));
                    } else {
                        assert(x == id);
                    }
                }
            }
        }
        i = i + 1;
    }
    proof {
        assert forall|x: CharacterId| #[trigger] marriageable@.contains(x) implies exists|j: int|
            0 <= j < n && marriageable@[j] == x by {
            let j = choose|j: int| 0 <= j < marriageable@.len() && marriageable@[j] == x;
        }
    }
    selected
}

/// The first remaining candidate of the opposite gender that is no blood
/// relative of the character; when none fits, every candidate fails one of
/// the two checks.
pub fn select_spouse(
    manager: &CharacterMgr,
    id: CharacterId,
    candidates: &Vec<CharacterId>,
) -> (r: Option<CharacterId>)
    requires
        manager.wf(),
        manager.valid(id),
        forall|j: int|
            0 <= j < candidates@.len() ==> manager.valid(#[trigger] candidates@[j]),
    ensures
        match r {
            Some(s) => candidates@.contains(s) && manager.valid(s) && !relative_ids(
                *manager,
                id,
            ).contains(s) && manager.chr(s).gender == manager.chr(id).gender.spec_reverse(),
            None => forall|j: int|
                0 <= j < candidates@.len() ==> (relative_ids(*manager, id).contains(
                    #[trigger] candidates@[j],
                ) || manager.chr(candidates@[j]).gender != manager.chr(
                    id,
                ).gender.spec_reverse()),
        },
{
    let relatives = get_relatives(manager, id);
    let character = &manager.characters[id.0];
    let n = candidates.len();
    let mut i: usize = 0;
    while i < n
        invariant
            i <= n,
            n == candidates@.len(),
            manager.wf(),
            manager.valid(id),
            *character == manager.chr(id),
            forall|j: int|
                0 <= j < candidates@.len() ==> manager.valid(#[trigger] candidates@[j]),
            forall|x: CharacterId| #[trigger] relatives@.contains(x) <==> relative_ids(
                *manager,
                id,
            ).contains(x),
            forall|j: int|
                0 <= j < i ==> (relative_ids(*manager, id).contains(#[trigger] candidates@[j])
                    || manager.chr(candidates@[j]).gender != manager.chr(
                    id,
                ).gender.spec_reverse()),
        decreases n - i,
    {
        let candidate_id = candidates[i];
        proof {
            assert(candidates@[i as int] == candidate_id);
            assert(candidates@.contains(candidate_id));
        }
        if !contains_id(&relatives, candidate_id) {
            let candidate = &manager.characters[candidate_id.0];
            if character.gender().is_reverse(*candidate.gender()) {
                return Some(candidate_id);
            }
        }
        i = i + 1;
    }
    None
}

/// Whether a character belongs to this year's marriage pool: unmarried,
/// alive, and inside the age window.
pub open spec fn marriageable_pred(
    m: CharacterMgr,
    date: Date,
    min_age: u32,
    max_age: u32,
    x: CharacterId,
) -> bool {
    &&& m.valid(x)
    &&& !exists|s: CharacterId| m.chr(x).has_edge(RelationType::Spouse, s)
    &&& m.chr(x).spec_is_alive()
    &&& min_age <= date.0 - m.chr(x).birth_date.0 <= max_age
}

/// Whether a pool member's roll selects it for marriage this year.
pub open spec fn marriage_selected(
    m: CharacterMgr,
    date: Date,
    rng: RandomNumberGenerator,
    min_age: u32,
    max_age: u32,
    base_chance: u32,
    x: CharacterId,
) -> bool {
    &&& marriageable_pred(m, date, min_age, max_age, x)
    &&& spec_next(rng, date.0, x.0, MARRIAGE_USAGE) % 100 < spec_marriage_chance(
        base_chance,
        (date.0 - m.chr(x).birth_date.0) as u32,
        min_age,
    )
}

/// Whether `c` is an eligible partner for `s`: a pool member of the opposite
/// gender that is no blood relative of `s`.
pub open spec fn marriage_candidate(
    m: CharacterMgr,
    date: Date,
    s: CharacterId,
    c: CharacterId,
) -> bool {
    &&& marriageable_pred(m, date, 18, 60, c)
    &&& m.chr(c).gender == m.chr(s).gender.spec_reverse()
    &&& !relative_ids(m, s).contains(c)
}

/// The partner that donates the surname: the male one.
pub open spec fn marriage_donor(m: CharacterMgr, pair: (CharacterId, CharacterId)) -> CharacterId {
    if m.chr(pair.0).gender == Gender::Male {
        pair.0
    } else {
        pair.1
    }
}

/// The partner that takes the married name: the female one.
pub open spec fn marriage_renamed(
    m: CharacterMgr,
    pair: (CharacterId, CharacterId),
) -> CharacterId {
    if m.chr(pair.0).gender == Gender::Male {
        pair.1
    } else {
        pair.0
    }
}

/// The name effect of one marriage: the renamed partner carries its old name
/// married into the donor's surname, or keeps it when the donor has none.
pub open spec fn pair_name_ok(
    m0: CharacterMgr,
    m1: CharacterMgr,
    pair: (CharacterId, CharacterId),
) -> bool {
    let donor = marriage_donor(m0, pair);
    let renamed = marriage_renamed(m0, pair);
    match m0.chr(donor).name@.spec_last() {
        Some(l) => m1.chr(renamed).name@ == m0.chr(renamed).name@.spec_marry(l),
        None => m1.chr(renamed).name == m0.chr(renamed).name,
    }
}

/// The edges one marriage of `pair` adds to record `c`: the two spouse edges
/// and the in-law edges tying each side's blood relatives to the other side.
pub open spec fn pair_adds_edge(
    m: CharacterMgr,
    pair: (CharacterId, CharacterId),
    c: CharacterId,
    t: RelationType,
    x: CharacterId,
) -> bool {
    let a = pair.0;
    let b = pair.1;
    ||| (c == a && t == RelationType::Spouse && x == b)
    ||| (c == b && t == RelationType::Spouse && x == a)
    ||| (c == b && in_law_recv(m, a, t, x))
    ||| (x == b && in_law_gain(m, a, c, t))
    ||| (c == a && in_law_recv(m, b, t, x))
    ||| (x == a && in_law_gain(m, b, c, t))
}

/// A valid outcome pairing of the marriage pass over the entry state: every
/// pair marries a roll-selected character to an eligible partner from the
/// remaining pool, the pairs are disjoint, the new spouse edges are exactly
/// the pairs, and every selected character left unpaired has no eligible
/// partner outside the pairing.
pub open spec fn marriage_pairs_ok(
    d0: SimulationData,
    d1: SimulationData,
    rng: RandomNumberGenerator,
    pairs: Seq<(CharacterId, CharacterId)>,
) -> bool {
    &&& forall|k: int|
        0 <= k < pairs.len() ==> {
            let a = (#[trigger] pairs[k]).0;
            let b = pairs[k].1;
            &&& marriage_selected(d0.character_manager, d0.date, rng, 18, 60, 20, a)
            &&& !marriage_selected(d0.character_manager, d0.date, rng, 18, 60, 20, b)
            &&& marriage_candidate(d0.character_manager, d0.date, a, b)
            &&& !relative_ids(d0.character_manager, b).contains(a)
            &&& a != b
        }
    &&& forall|k1: int, k2: int|
        0 <= k1 < k2 < pairs.len() ==> ((#[trigger] pairs[k1]).0 != (#[trigger] pairs[k2]).0
            && pairs[k1].0 != pairs[k2].1 && pairs[k1].1 != pairs[k2].0 && pairs[k1].1
            != pairs[k2].1)
    &&& forall|i: int, t: RelationType, x: CharacterId|
        0 <= i < d0.character_manager.characters@.len() ==> (#[trigger] d1.character_manager
            .characters@[i].has_edge(t, x) <==> d0.character_manager.characters@[i].has_edge(
            t,
            x,
        ) || exists|k: int|
            0 <= k < pairs.len() && pair_adds_edge(
                d0.character_manager,
                #[trigger] pairs[k],
                CharacterId(i as usize),
                t,
                x,
            ))
    &&& forall|i: int|
        0 <= i < d0.character_manager.characters@.len() && !(exists|k: int|
            0 <= k < pairs.len() && (marriage_renamed(
                d0.character_manager,
                #[trigger] pairs[k],
            )).0 == i) ==> #[trigger] d1.character_manager.characters@[i].name
            == d0.character_manager.characters@[i].name
    &&& forall|k: int|
        0 <= k < pairs.len() ==> #[trigger] pair_name_ok(
            d0.character_manager,
            d1.character_manager,
            pairs[k],
        )
    &&& forall|s: CharacterId, c: CharacterId|
        (marriage_selected(d0.character_manager, d0.date, rng, 18, 60, 20, s) && (forall|k: int|
            0 <= k < pairs.len() ==> (#[trigger] pairs[k]).0 != s)
            && #[trigger] marriage_candidate(d0.character_manager, d0.date, s, c)
            && !marriage_selected(d0.character_manager, d0.date, rng, 18, 60, 20, c)) ==> exists|
            k: int,
        | 0 <= k < pairs.len() && (#[trigger] pairs[k]).1 == c
}

/// What the marriage pass leaves behind: some pairing of roll-selected
/// characters with eligible partners from the remaining pool; the new spouse
/// edges are exactly the pairs, each selected character left unpaired has no
/// eligible partner outside the pairing, and everything else about the
/// records is kept.
pub open spec fn marriage_pass_post(
    d0: SimulationData,
    d1: SimulationData,
    rng: RandomNumberGenerator,
) -> bool {
    &&& d1.character_manager.wf()
    &&& d1.date == d0.date
    &&& d1.map == d0.map
    &&& d1.building_manager == d0.building_manager
    &&& d1.character_name_generator == d0.character_name_generator
    &&& d1.character_manager.characters@.len() == d0.character_manager.characters@.len()
    &&& ages_ok(d1.character_manager, d1.date)
    &&& forall|i: int|
        0 <= i < d0.character_manager.characters@.len() ==> ((#[trigger] d1.character_manager
            .characters@[i]).id == d0.character_manager.characters@[i].id
            && d1.character_manager.characters@[i].birth_date == d0.character_manager
            .characters@[i].birth_date && d1.character_manager.characters@[i].death_date
            == d0.character_manager.characters@[i].death_date && d1.character_manager
            .characters@[i].gender == d0.character_manager.characters@[i].gender
            && d1.character_manager.characters@[i].building_relations == d0.character_manager
            .characters@[i].building_relations)
    &&& forall|i: int, kk: RelativeType, x: CharacterId|
        0 <= i < d0.character_manager.characters@.len() ==> (#[trigger] d1.character_manager
            .characters@[i].has_edge(RelationType::Relative(kk), x) <==> d0.character_manager
            .characters@[i].has_edge(RelationType::Relative(kk), x))
    &&& exists|pairs: Seq<(CharacterId, CharacterId)>|
        #[trigger] marriage_pairs_ok(d0, d1, rng, pairs)
}

/// When the blood-relation edges of every record agree between two states,
/// the in-law gain and receive conditions agree too.
proof fn lemma_in_law_stable(m0: CharacterMgr, m1: CharacterMgr, from: CharacterId)
    requires
        m0.characters@.len() == m1.characters@.len(),
        from.0 < m0.characters@.len(),
        forall|i: int, kk: RelativeType, x: CharacterId|
            0 <= i < m0.characters@.len() ==> (#[trigger] m1.characters@[i].has_edge(
                RelationType::Relative(kk),
                x,
            ) <==> m0.characters@[i].has_edge(RelationType::Relative(kk), x)),
    ensures
        forall|t: RelationType, x: CharacterId|
            #[trigger] in_law_recv(m1, from, t, x) <==> in_law_recv(m0, from, t, x),
        forall|c: CharacterId, t: RelationType|
            #[trigger] in_law_gain(m1, from, c, t) <==> in_law_gain(m0, from, c, t),
{
    assert forall|t: RelationType, x: CharacterId|
        #[trigger] in_law_recv(m1, from, t, x) <==> in_law_recv(m0, from, t, x) by {
        if in_law_recv(m1, from, t, x) {
            let kk = choose|kk: RelativeType|
                t == RelationType::InLaw(kk) && #[trigger] m1.chr(from).has_edge(
                    RelationType::Relative(kk),
                    x,
                );
            assert(m0.characters@[from.0 as int].has_edge(RelationType::Relative(kk), x));
        }
        if in_law_recv(m0, from, t, x) {
            let kk = choose|kk: RelativeType|
                t == RelationType::InLaw(kk) && #[trigger] m0.chr(from).has_edge(
                    RelationType::Relative(kk),
                    x,
                );
            assert(m1.characters@[from.0 as int].has_edge(RelationType::Relative(kk), x));
        }
    }
    assert forall|c: CharacterId, t: RelationType|
        #[trigger] in_law_gain(m1, from, c, t) <==> in_law_gain(m0, from, c, t) by {
        if in_law_gain(m1, from, c, t) {
            let kk = choose|kk: RelativeType|
                t == RelationType::InLaw(kk.spec_reverse()) && #[trigger] m1.chr(
                    from,
                ).has_edge(RelationType::Relative(kk), c);
            assert(m0.characters@[from.0 as int].has_edge(RelationType::Relative(kk), c));
        }
        if in_law_gain(m0, from, c, t) {
            let kk = choose|kk: RelativeType|
                t == RelationType::InLaw(kk.spec_reverse()) && #[trigger] m0.chr(
                    from,
                ).has_edge(RelationType::Relative(kk), c);
            assert(m1.characters@[from.0 as int].has_edge(RelationType::Relative(kk), c));
        }
    }
}

/// Run the marriage pass: the unmarried living characters inside the age
/// window roll for marriage, and each selected character marries the first
/// remaining candidate of the opposite gender that is no blood relative,
/// with the male partner as the name donor.
#[verifier::rlimit(100)]
#[verifier::spinoff_prover]
pub fn simulate_marriage(data: &mut SimulationData, rng: &RandomNumberGenerator)
    requires
        old(data).character_manager.wf(),
        old(data).character_manager.characters@.len() <= usize::MAX,
        ages_ok(old(data).character_manager, old(data).date),
    ensures
        marriage_pass_post(*old(data), *final(data), *rng),
{
    let ghost d0 = *old(data);
    let min_age: u32 = 18;
    let max_age: u32 = 60;
    let base_chance: u32 = 20;
    let marriageable = get_marriageable(data, min_age, max_age);
    proof {
        assert forall|x: CharacterId| #[trigger] marriageable@.contains(x) <==> marriageable_pred(
            d0.character_manager,
            d0.date,
            18,
            60,
            x,
        ) by {}
        assert forall|j: int|
            0 <= j < marriageable@.len() implies (data.character_manager.valid(
            #[trigger] marriageable@[j],
        ) && data.character_manager.chr(marriageable@[j]).spec_is_alive()) by {
            assert(marriageable@.contains(marriageable@[j]));
        }
    }
    let selected_characters = select_characters_to_marry(
        data,
        rng,
        &marriageable,
        min_age,
        base_chance,
    );
    proof {
        assert forall|x: CharacterId| #[trigger] selected_characters@.contains(x)
            <==> marriage_selected(d0.character_manager, d0.date, *rng, 18, 60, 20, x) by {}
    }
    let mut remaining: Vec<CharacterId> = Vec::new();
    let mn = marriageable.len();
    let mut q: usize = 0;
    while q < mn
        invariant
            q <= mn,
            mn == marriageable@.len(),
            marriageable@.no_duplicates(),
            remaining@.no_duplicates(),
            forall|x: CharacterId| #[trigger] remaining@.contains(x) <==> ((exists|j: int|
                0 <= j < q && marriageable@[j] == x) && !selected_characters@.contains(x)),
        decreases mn - q,
    {
        let id = marriageable[q];
        proof {
            assert(marriageable@[q as int] == id);
        }
        let ghost r0 = remaining@;
        let chosen = contains_id(&selected_characters, id);
        let mut pushed = false;
        if !chosen {
            proof {
                if r0.contains(id) {
                    let j = choose|j: int| 0 <= j < q && marriageable@[j] == id;
                    assert(marriageable@[j] == marriageable@[q as int]);
                }
            }
            remaining.push(id);
            pushed = true;
        }
        proof {
            assert forall|x: CharacterId| #[trigger] remaining@.contains(x) <==> ((exists|j: int|
                0 <= j < q + 1 && marriageable@[j] == x) && !selected_characters@.contains(x))
                by {
                if pushed {
                    vstd::seq_lib::lemma_seq_contains_after_push(r0, id, x);
                }
                if remaining@.contains(x) && !r0.contains(x) {
                    assert(marriageable@[q as int] == x);
                }
                if (exists|j: int| 0 <= j < q + 1 && marriageable@[j] == x)
                    && !selected_characters@.contains(x) {
                    let j = choose|j: int| 0 <= j < q + 1 && marriageable@[j] == x;
                    if j < q {
                        assert(r0.contains(x));
                    } else {
                        assert(marriageable@[q as int] == x);
                    }
                }
            }
        }
        q = q + 1;
    }
    proof {
        assert forall|x: CharacterId| #[trigger] remaining@.contains(x) <==> (
        marriageable@.contains(x) && !selected_characters@.contains(x)) by {
            if marriageable@.contains(x) {
                let j = choose|j: int| 0 <= j < marriageable@.len() && marriageable@[j] == x;
            }
        }
    }
    let ghost mut pairs: Seq<(CharacterId, CharacterId)> = Seq::empty();
    let sn = selected_characters.len();
    let mut k: usize = 0;
    while k < sn
        invariant
            k <= sn,
            sn == selected_characters@.len(),
            selected_characters@.no_duplicates(),
            data.character_manager.wf(),
            data.date == d0.date,
            data.map == d0.map,
            data.building_manager == d0.building_manager,
            data.character_name_generator == d0.character_name_generator,
            data.character_manager.characters@.len() == d0.character_manager.characters@.len(),
            d0.character_manager.characters@.len() <= usize::MAX,
            d0.character_manager.wf(),
            ages_ok(data.character_manager, data.date),
            forall|x: CharacterId| #[trigger] selected_characters@.contains(x)
                <==> marriage_selected(d0.character_manager, d0.date, *rng, 18, 60, 20, x),
            forall|i: int|
                0 <= i < d0.character_manager.characters@.len() ==> ((#[trigger] data
                    .character_manager.characters@[i]).id == d0.character_manager
                    .characters@[i].id && data.character_manager.characters@[i].birth_date
                    == d0.character_manager.characters@[i].birth_date && data
                    .character_manager.characters@[i].death_date == d0.character_manager
                    .characters@[i].death_date && data.character_manager.characters@[i].gender
                    == d0.character_manager.characters@[i].gender && data.character_manager
                    .characters@[i].building_relations == d0.character_manager.characters@[i]
                    .building_relations),
            forall|i: int, kk: RelativeType, x: CharacterId|
                0 <= i < d0.character_manager.characters@.len() ==> (#[trigger] data
                    .character_manager.characters@[i].has_edge(RelationType::Relative(kk), x)
                    <==> d0.character_manager.characters@[i].has_edge(
                    RelationType::Relative(kk),
                    x,
                )),
            forall|kp: int|
                0 <= kp < pairs.len() ==> {
                    let a = (#[trigger] pairs[kp]).0;
                    let b = pairs[kp].1;
                    &&& marriage_selected(d0.character_manager, d0.date, *rng, 18, 60, 20, a)
                    &&& !marriage_selected(d0.character_manager, d0.date, *rng, 18, 60, 20, b)
                    &&& marriage_candidate(d0.character_manager, d0.date, a, b)
                    &&& !relative_ids(d0.character_manager, b).contains(a)
                    &&& a != b
                    &&& exists|j: int| 0 <= j < k && selected_characters@[j] == a
                },
            forall|k1: int, k2: int|
                0 <= k1 < k2 < pairs.len() ==> ((#[trigger] pairs[k1]).0 != (
                #[trigger] pairs[k2]).0 && pairs[k1].0 != pairs[k2].1 && pairs[k1].1
                    != pairs[k2].0 && pairs[k1].1 != pairs[k2].1),
            forall|i: int, x: CharacterId|
                0 <= i < d0.character_manager.characters@.len() ==> (#[trigger] data
                    .character_manager.characters@[i].has_edge(RelationType::Spouse, x)
                    <==> d0.character_manager.characters@[i].has_edge(RelationType::Spouse, x)
                    || exists|kp: int|
                    0 <= kp < pairs.len() && ((#[trigger] pairs[kp]) == (
                    CharacterId(i as usize),
                    x,
                ) || pairs[kp] == (x, CharacterId(i as usize)))),
            forall|i: int, t: RelationType, x: CharacterId|
                0 <= i < d0.character_manager.characters@.len() ==> (#[trigger] data
                    .character_manager.characters@[i].has_edge(t, x) <==> d0.character_manager
                    .characters@[i].has_edge(t, x) || exists|kp: int|
                    0 <= kp < pairs.len() && pair_adds_edge(
                        d0.character_manager,
                        #[trigger] pairs[kp],
                        CharacterId(i as usize),
                        t,
                        x,
                    )),
            forall|i: int|
                0 <= i < d0.character_manager.characters@.len() && !(exists|kp: int|
                    0 <= kp < pairs.len() && (marriage_renamed(
                        d0.character_manager,
                        #[trigger] pairs[kp],
                    )).0 == i) ==> #[trigger] data.character_manager.characters@[i].name
                    == d0.character_manager.characters@[i].name,
            forall|kp: int|
                0 <= kp < pairs.len() ==> #[trigger] pair_name_ok(
                    d0.character_manager,
                    data.character_manager,
                    pairs[kp],
                ),
            remaining@.no_duplicates(),
            forall|x: CharacterId| #[trigger] remaining@.contains(x) <==> (marriageable_pred(
                d0.character_manager,
                d0.date,
                18,
                60,
                x,
            ) && !marriage_selected(d0.character_manager, d0.date, *rng, 18, 60, 20, x) && !(
            exists|kp: int| 0 <= kp < pairs.len() && (#[trigger] pairs[kp]).1 == x)),
            forall|s: CharacterId, c: CharacterId|
                (selected_characters@.take(k as int).contains(s) && (forall|kp: int|
                    0 <= kp < pairs.len() ==> (#[trigger] pairs[kp]).0 != s)
                    && #[trigger] marriage_candidate(d0.character_manager, d0.date, s, c)
                    && !marriage_selected(d0.character_manager, d0.date, *rng, 18, 60, 20, c))
                    ==> exists|kp: int| 0 <= kp < pairs.len() && (#[trigger] pairs[kp]).1 == c,
        decreases sn - k,
    {
        let id = selected_characters[k];
        proof {
            assert(selected_characters@[k as int] == id);
            assert(selected_characters@.contains(id));
            assert(marriage_selected(d0.character_manager, d0.date, *rng, 18, 60, 20, id));
            assert forall|j: int|
                0 <= j < remaining@.len() implies data.character_manager.valid(
                #[trigger] remaining@[j],
            ) by {
                assert(remaining@.contains(remaining@[j]));
            }
        }
        if let Some(spouse) = select_spouse(&data.character_manager, id, &remaining) {
            proof {
                assert(remaining@.contains(spouse));
                // the candidate checks, read off the current state, hold just
                // as well at the pass's start
                assert(relative_ids(data.character_manager, id) =~= relative_ids(
                    d0.character_manager,
                    id,
                )) by {
                    assert forall|x: CharacterId|
                        relative_ids(data.character_manager, id).contains(x)
                            <==> relative_ids(d0.character_manager, id).contains(x) by {
                        if relative_ids(data.character_manager, id).contains(x) {
                            let kk = choose|kk: RelativeType|
                                #[trigger] data.character_manager.chr(id).has_edge(
                                    RelationType::Relative(kk),
                                    x,
                                );
                            assert(d0.character_manager.characters@[id.0 as int].has_edge(
                                RelationType::Relative(kk),
                                x,
                            ));
                        }
                        if relative_ids(d0.character_manager, id).contains(x) {
                            let kk = choose|kk: RelativeType|
                                #[trigger] d0.character_manager.chr(id).has_edge(
                                    RelationType::Relative(kk),
                                    x,
                                );
                            assert(data.character_manager.characters@[id.0 as int].has_edge(
                                RelationType::Relative(kk),
                                x,
                            ));
                        }
                    }
                }
                assert(marriage_candidate(d0.character_manager, d0.date, id, spouse));
                // neither side is married yet
                assert forall|x: CharacterId|
                    !#[trigger] data.character_manager.chr(id).has_edge(
                        RelationType::Spouse,
                        x,
                    ) by {
                    if data.character_manager.chr(id).has_edge(RelationType::Spouse, x) {
                        assert(data.character_manager.characters@[id.0 as int].has_edge(
                            RelationType::Spouse,
                            x,
                        ));
                        if exists|kp: int|
                            0 <= kp < pairs.len() && ((#[trigger] pairs[kp]) == (id, x)
                                || pairs[kp] == (x, id)) {
                            let kp = choose|kp: int|
                                0 <= kp < pairs.len() && ((#[trigger] pairs[kp]) == (id, x)
                                    || pairs[kp] == (x, id));
                            if pairs[kp] == (id, x) {
                                let j = choose|j: int|
                                    0 <= j < k && selected_characters@[j] == id;
                                assert(selected_characters@[j]
                                    == selected_characters@[k as int]);
                            } else {
                                assert(!marriage_selected(
                                    d0.character_manager,
                                    d0.date,
                                    *rng,
                                    18,
                                    60,
                                    20,
                                    id,
                                ));
                            }
                        }
                    }
                }
                assert forall|x: CharacterId|
                    !#[trigger] data.character_manager.chr(spouse).has_edge(
                        RelationType::Spouse,
                        x,
                    ) by {
                    if data.character_manager.chr(spouse).has_edge(RelationType::Spouse, x) {
                        assert(data.character_manager.characters@[spouse.0 as int].has_edge(
                            RelationType::Spouse,
                            x,
                        ));
                        if exists|kp: int|
                            0 <= kp < pairs.len() && ((#[trigger] pairs[kp]) == (spouse, x)
                                || pairs[kp] == (x, spouse)) {
                            let kp = choose|kp: int|
                                0 <= kp < pairs.len() && ((#[trigger] pairs[kp]) == (spouse, x)
                                    || pairs[kp] == (x, spouse));
                            if pairs[kp] == (spouse, x) {
                                assert(marriage_selected(
                                    d0.character_manager,
                                    d0.date,
                                    *rng,
                                    18,
                                    60,
                                    20,
                                    spouse,
                                ));
                            }
                        }
                    }
                }
                // the selected side is no blood relative of the candidate,
                // by the store's symmetry
                assert forall|kk: RelativeType|
                    !#[trigger] data.character_manager.chr(spouse).has_edge(
                        RelationType::Relative(kk),
                        id,
                    ) by {
                    if data.character_manager.chr(spouse).has_edge(
                        RelationType::Relative(kk),
                        id,
                    ) {
                        crate::character::lemma_edge_symmetry(
                            data.character_manager,
                            spouse,
                            RelationType::Relative(kk),
                            id,
                        );
                        assert(data.character_manager.chr(id).has_edge(
                            RelationType::Relative(kk.spec_reverse()),
                            spouse,
                        ));
                        assert(relative_ids(data.character_manager, id).contains(spouse));
                    }
                }
                assert forall|kk: RelativeType|
                    !#[trigger] data.character_manager.chr(id).has_edge(
                        RelationType::Relative(kk),
                        spouse,
                    ) by {
                    if data.character_manager.chr(id).has_edge(
                        RelationType::Relative(kk),
                        spouse,
                    ) {
                        assert(relative_ids(data.character_manager, id).contains(spouse));
                    }
                }
                assert(id != spouse);
            }
            let ghost pre = *data;
            let ghost pairs_before = pairs;
            if get_gender(&data.character_manager, id) == Gender::Male {
                marry(&mut data.character_manager, id, spouse);
            } else {
                marry(&mut data.character_manager, spouse, id);
            }
            proof {
                let pairs0 = pairs_before;
                pairs = pairs.push((id, spouse));
                assert(pairs == pairs_before.push((id, spouse)));
                assert(pairs[pairs0.len() as int] == (id, spouse));
                assert(forall|kp: int| 0 <= kp < pairs0.len() ==> pairs[kp] == pairs0[kp]);
                // the new pair is disjoint from every earlier one
                assert forall|k1: int, k2: int|
                    0 <= k1 < k2 < pairs.len() implies ((#[trigger] pairs[k1]).0 != (
                #[trigger] pairs[k2]).0 && pairs[k1].0 != pairs[k2].1 && pairs[k1].1
                    != pairs[k2].0 && pairs[k1].1 != pairs[k2].1) by {
                    if k2 == pairs0.len() {
                        let j = choose|j: int|
                            0 <= j < k && selected_characters@[j] == pairs[k1].0;
                        assert(selected_characters@[j] != selected_characters@[k as int]);
                        assert(selected_characters@.contains(pairs[k1].0));
                        assert(!marriage_selected(
                            d0.character_manager,
                            d0.date,
                            *rng,
                            18,
                            60,
                            20,
                            pairs[k1].1,
                        ));
                        assert(marriage_selected(
                            d0.character_manager,
                            d0.date,
                            *rng,
                            18,
                            60,
                            20,
                            id,
                        ));
                    }
                }
                // the spouse edges grew by exactly this pair
                assert forall|i: int, x: CharacterId|
                    0 <= i < d0.character_manager.characters@.len() implies (#[trigger] data
                    .character_manager.characters@[i].has_edge(RelationType::Spouse, x)
                    <==> d0.character_manager.characters@[i].has_edge(RelationType::Spouse, x)
                    || exists|kp: int|
                    0 <= kp < pairs.len() && ((#[trigger] pairs[kp]) == (
                    CharacterId(i as usize),
                    x,
                ) || pairs[kp] == (x, CharacterId(i as usize)))) by {
                    let c = CharacterId(i as usize);
                    let a = if pre.character_manager.chr(id).gender == Gender::Male {
                        id
                    } else {
                        spouse
                    };
                    let b = if pre.character_manager.chr(id).gender == Gender::Male {
                        spouse
                    } else {
                        id
                    };
                    assert(data.character_manager.characters@[i].has_edge(
                        RelationType::Spouse,
                        x,
                    ) <==> pre.character_manager.characters@[i].has_edge(
                        RelationType::Spouse,
                        x,
                    ) || (i == a.0 && x == b) || (i == b.0 && x == a)) by {
                        if i == a.0 {
                            assert(data.character_manager.chr(a).has_edge(
                                RelationType::Spouse,
                                x,
                            ) <==> x == b);
                            assert(!pre.character_manager.chr(a).has_edge(
                                RelationType::Spouse,
                                x,
                            ));
                        } else if i == b.0 {
                            assert(data.character_manager.chr(b).has_edge(
                                RelationType::Spouse,
                                x,
                            ) <==> x == a);
                            assert(!pre.character_manager.chr(b).has_edge(
                                RelationType::Spouse,
                                x,
                            ));
                        } else {
                            assert(data.character_manager.characters@[i].has_edge(
                                RelationType::Spouse,
                                x,
                            ) <==> pre.character_manager.characters@[i].has_edge(
                                RelationType::Spouse,
                                x,
                            ) || (i == a.0 && in_law_recv(
                                pre.character_manager,
                                a,
                                RelationType::Spouse,
                                x,
                            )) || (x == b && in_law_gain(
                                pre.character_manager,
                                a,
                                c,
                                RelationType::Spouse,
                            )) || (i == b.0 && in_law_recv(
                                pre.character_manager,
                                b,
                                RelationType::Spouse,
                                x,
                            )) || (x == a && in_law_gain(
                                pre.character_manager,
                                b,
                                c,
                                RelationType::Spouse,
                            )));
                            if in_law_gain(pre.character_manager, a, c, RelationType::Spouse) {
                                let kk = choose|kk: RelativeType|
                                    RelationType::Spouse == RelationType::InLaw(
                                        kk.spec_reverse(),
                                    ) && #[trigger] pre.character_manager.chr(a).has_edge(
                                        RelationType::Relative(kk),
                                        c,
                                    );
                            }
                            if in_law_gain(pre.character_manager, b, c, RelationType::Spouse) {
                                let kk = choose|kk: RelativeType|
                                    RelationType::Spouse == RelationType::InLaw(
                                        kk.spec_reverse(),
                                    ) && #[trigger] pre.character_manager.chr(b).has_edge(
                                        RelationType::Relative(kk),
                                        c,
                                    );
                            }
                        }
                    }
                    if exists|kp: int|
                        0 <= kp < pairs.len() && ((#[trigger] pairs[kp]) == (c, x) || pairs[kp]
                            == (x, c)) {
                        let kp = choose|kp: int|
                            0 <= kp < pairs.len() && ((#[trigger] pairs[kp]) == (c, x)
                                || pairs[kp] == (x, c));
                        if kp < pairs0.len() {
                            assert(pairs0[kp] == pairs[kp]);
                        }
                    }
                }
                // the relative edges are untouched
                assert forall|i: int, kk: RelativeType, x: CharacterId|
                    0 <= i < d0.character_manager.characters@.len() implies (#[trigger] data
                    .character_manager.characters@[i].has_edge(RelationType::Relative(kk), x)
                    <==> d0.character_manager.characters@[i].has_edge(
                    RelationType::Relative(kk),
                    x,
                )) by {
                    let a = if pre.character_manager.chr(id).gender == Gender::Male {
                        id
                    } else {
                        spouse
                    };
                    let b = if pre.character_manager.chr(id).gender == Gender::Male {
                        spouse
                    } else {
                        id
                    };
                    let c = CharacterId(i as usize);
                    assert(data.character_manager.characters@[i].has_edge(
                        RelationType::Relative(kk),
                        x,
                    ) <==> pre.character_manager.characters@[i].has_edge(
                        RelationType::Relative(kk),
                        x,
                    )) by {
                        if in_law_recv(
                            pre.character_manager,
                            a,
                            RelationType::Relative(kk),
                            x,
                        ) {
                            let kx = choose|kx: RelativeType|
                                RelationType::Relative(kk) == RelationType::InLaw(kx)
                                    && #[trigger] pre.character_manager.chr(a).has_edge(
                                    RelationType::Relative(kx),
                                    x,
                                );
                        }
                        if in_law_recv(
                            pre.character_manager,
                            b,
                            RelationType::Relative(kk),
                            x,
                        ) {
                            let kx = choose|kx: RelativeType|
                                RelationType::Relative(kk) == RelationType::InLaw(kx)
                                    && #[trigger] pre.character_manager.chr(b).has_edge(
                                    RelationType::Relative(kx),
                                    x,
                                );
                        }
                        if in_law_gain(pre.character_manager, a, c, RelationType::Relative(kk)) {
                            let kx = choose|kx: RelativeType|
                                RelationType::Relative(kk) == RelationType::InLaw(
                                    kx.spec_reverse(),
                                ) && #[trigger] pre.character_manager.chr(a).has_edge(
                                    RelationType::Relative(kx),
                                    c,
                                );
                        }
                        if in_law_gain(pre.character_manager, b, c, RelationType::Relative(kk)) {
                            let kx = choose|kx: RelativeType|
                                RelationType::Relative(kk) == RelationType::InLaw(
                                    kx.spec_reverse(),
                                ) && #[trigger] pre.character_manager.chr(b).has_edge(
                                    RelationType::Relative(kx),
                                    c,
                                );
                        }
                    }
                }
                // the pass's start and the pre-marriage state agree on every
                // blood-relation edge, so the in-law conditions agree too
                lemma_in_law_stable(d0.character_manager, pre.character_manager, id);
                lemma_in_law_stable(d0.character_manager, pre.character_manager, spouse);
                assert forall|i: int, t: RelationType, x: CharacterId|
                    0 <= i < d0.character_manager.characters@.len() implies (#[trigger] data
                    .character_manager.characters@[i].has_edge(t, x) <==> d0.character_manager
                    .characters@[i].has_edge(t, x) || exists|kp: int|
                    0 <= kp < pairs.len() && pair_adds_edge(
                        d0.character_manager,
                        #[trigger] pairs[kp],
                        CharacterId(i as usize),
                        t,
                        x,
                    )) by {
                    let c = CharacterId(i as usize);
                    let a = if pre.character_manager.chr(id).gender == Gender::Male {
                        id
                    } else {
                        spouse
                    };
                    let b = if pre.character_manager.chr(id).gender == Gender::Male {
                        spouse
                    } else {
                        id
                    };
                    assert(data.character_manager.characters@[i].has_edge(t, x)
                        <==> pre.character_manager.characters@[i].has_edge(t, x) || (i == b.0
                        && in_law_recv(pre.character_manager, a, t, x)) || (x == b
                        && in_law_gain(pre.character_manager, a, c, t)) || (i == a.0
                        && in_law_recv(pre.character_manager, b, t, x)) || (x == a
                        && in_law_gain(pre.character_manager, b, c, t)) || (i == a.0 && t
                        == RelationType::Spouse && x == b) || (i == b.0 && t
                        == RelationType::Spouse && x == a));
                    assert(pair_adds_edge(d0.character_manager, (id, spouse), c, t, x) == ((i
                        == b.0 && in_law_recv(pre.character_manager, a, t, x)) || (x == b
                        && in_law_gain(pre.character_manager, a, c, t)) || (i == a.0
                        && in_law_recv(pre.character_manager, b, t, x)) || (x == a
                        && in_law_gain(pre.character_manager, b, c, t)) || (i == a.0 && t
                        == RelationType::Spouse && x == b) || (i == b.0 && t
                        == RelationType::Spouse && x == a)));
                    if exists|kp: int|
                        0 <= kp < pairs.len() && pair_adds_edge(
                            d0.character_manager,
                            #[trigger] pairs[kp],
                            c,
                            t,
                            x,
                        ) {
                        let kp = choose|kp: int|
                            0 <= kp < pairs.len() && pair_adds_edge(
                                d0.character_manager,
                                #[trigger] pairs[kp],
                                c,
                                t,
                                x,
                            );
                        if kp < pairs_before.len() {
                            assert(pairs_before[kp] == pairs[kp]);
                        } else {
                            assert(pairs[kp] == (id, spouse));
                        }
                    }
                    if pre.character_manager.characters@[i].has_edge(t, x)
                        && !d0.character_manager.characters@[i].has_edge(t, x) {
                        let kp = choose|kp: int|
                            0 <= kp < pairs_before.len() && pair_adds_edge(
                                d0.character_manager,
                                #[trigger] pairs_before[kp],
                                c,
                                t,
                                x,
                            );
                        assert(pairs[kp] == pairs_before[kp]);
                    }
                }
                // the couple still carried their entry names, so the donor's
                // surname is the entry surname of the male partner
                assert(!(exists|kp: int|
                    0 <= kp < pairs_before.len() && (marriage_renamed(
                        d0.character_manager,
                        #[trigger] pairs_before[kp],
                    )).0 == id.0)) by {
                    if exists|kp: int|
                        0 <= kp < pairs_before.len() && (marriage_renamed(
                            d0.character_manager,
                            #[trigger] pairs_before[kp],
                        )).0 == id.0 {
                        let kp = choose|kp: int|
                            0 <= kp < pairs_before.len() && (marriage_renamed(
                                d0.character_manager,
                                #[trigger] pairs_before[kp],
                            )).0 == id.0;
                        assert(pairs[kp] == pairs_before[kp]);
                        assert(pairs[kp].0 == id || pairs[kp].1 == id);
                        let j2 = choose|j2: int|
                            0 <= j2 < k && selected_characters@[j2] == pairs[kp].0;
                        assert(selected_characters@[j2] != selected_characters@[k as int]);
                        assert(!marriage_selected(
                            d0.character_manager,
                            d0.date,
                            *rng,
                            18,
                            60,
                            20,
                            pairs[kp].1,
                        ));
                    }
                }
                assert(!(exists|kp: int|
                    0 <= kp < pairs_before.len() && (marriage_renamed(
                        d0.character_manager,
                        #[trigger] pairs_before[kp],
                    )).0 == spouse.0)) by {
                    if exists|kp: int|
                        0 <= kp < pairs_before.len() && (marriage_renamed(
                            d0.character_manager,
                            #[trigger] pairs_before[kp],
                        )).0 == spouse.0 {
                        let kp = choose|kp: int|
                            0 <= kp < pairs_before.len() && (marriage_renamed(
                                d0.character_manager,
                                #[trigger] pairs_before[kp],
                            )).0 == spouse.0;
                        assert(pairs[kp] == pairs_before[kp]);
                        assert(pairs[kp].0 == spouse || pairs[kp].1 == spouse);
                        assert(marriage_selected(
                            d0.character_manager,
                            d0.date,
                            *rng,
                            18,
                            60,
                            20,
                            pairs[kp].0,
                        ));
                    }
                }
                assert(pre.character_manager.chr(id).name == d0.character_manager.chr(
                    id,
                ).name);
                assert(pre.character_manager.chr(spouse).name == d0.character_manager.chr(
                    spouse,
                ).name);
                assert(pair_name_ok(
                    d0.character_manager,
                    data.character_manager,
                    (id, spouse),
                )) by {
                    assert(pre.character_manager.chr(id).gender == d0.character_manager.chr(
                        id,
                    ).gender);
                    assert(marriage_donor(d0.character_manager, (id, spouse)) == (
                    if pre.character_manager.chr(id).gender == Gender::Male {
                        id
                    } else {
                        spouse
                    }));
                }
                assert forall|kp: int|
                    0 <= kp < pairs.len() implies #[trigger] pair_name_ok(
                    d0.character_manager,
                    data.character_manager,
                    pairs[kp],
                ) by {
                    if kp < pairs_before.len() {
                        assert(pairs[kp] == pairs_before[kp]);
                        assert(pair_name_ok(
                            d0.character_manager,
                            pre.character_manager,
                            pairs[kp],
                        ));
                        let r_old = marriage_renamed(d0.character_manager, pairs[kp]);
                        assert(r_old == pairs[kp].0 || r_old == pairs[kp].1);
                        assert(pairs[kp].0 != id && pairs[kp].0 != spouse && pairs[kp].1 != id
                            && pairs[kp].1 != spouse) by {
                            let j2 = choose|j2: int|
                                0 <= j2 < k && selected_characters@[j2] == pairs[kp].0;
                            assert(selected_characters@[j2]
                                != selected_characters@[k as int]);
                            assert(!marriage_selected(
                                d0.character_manager,
                                d0.date,
                                *rng,
                                18,
                                60,
                                20,
                                pairs[kp].1,
                            ));
                            assert(marriage_selected(
                                d0.character_manager,
                                d0.date,
                                *rng,
                                18,
                                60,
                                20,
                                pairs[kp].0,
                            ));
                        }
                        assert(data.character_manager.characters@[r_old.0 as int].name
                            == pre.character_manager.characters@[r_old.0 as int].name);
                    } else {
                        assert(pairs[kp] == (id, spouse));
                    }
                }
                assert forall|i: int|
                    0 <= i < d0.character_manager.characters@.len() && !(exists|kp: int|
                        0 <= kp < pairs.len() && (marriage_renamed(
                            d0.character_manager,
                            #[trigger] pairs[kp],
                        )).0 == i) implies #[trigger] data.character_manager.characters@[i]
                    .name == d0.character_manager.characters@[i].name by {
                    assert(!(exists|kp: int|
                        0 <= kp < pairs_before.len() && (marriage_renamed(
                            d0.character_manager,
                            #[trigger] pairs_before[kp],
                        )).0 == i)) by {
                        if exists|kp: int|
                            0 <= kp < pairs_before.len() && (marriage_renamed(
                                d0.character_manager,
                                #[trigger] pairs_before[kp],
                            )).0 == i {
                            let kp = choose|kp: int|
                                0 <= kp < pairs_before.len() && (marriage_renamed(
                                    d0.character_manager,
                                    #[trigger] pairs_before[kp],
                                )).0 == i;
                            assert(pairs[kp] == pairs_before[kp]);
                            assert((marriage_renamed(
                                d0.character_manager,
                                pairs[kp],
                            )).0 == i);
                        }
                    }
                    assert(i != (marriage_renamed(
                        d0.character_manager,
                        (id, spouse),
                    )).0) by {
                        assert(pairs[pairs.len() - 1] == (id, spouse));
                    }
                    assert(pre.character_manager.characters@[i].name
                        == d0.character_manager.characters@[i].name);
                    assert(data.character_manager.characters@[i].name
                        == pre.character_manager.characters@[i].name);
                }
            }
            let mut cleaned: Vec<CharacterId> = Vec::new();
            let rn = remaining.len();
            let mut w: usize = 0;
            while w < rn
                invariant
                    w <= rn,
                    rn == remaining@.len(),
                    remaining@.no_duplicates(),
                    cleaned@.no_duplicates(),
                    forall|x: CharacterId| #[trigger] cleaned@.contains(x) <==> ((exists|
                        v: int,
                    |
                        0 <= v < w && remaining@[v] == x) && x != spouse),
                decreases rn - w,
            {
                let entry = remaining[w];
                proof {
                    assert(remaining@[w as int] == entry);
                }
                let ghost c0 = cleaned@;
                let mut pushed = false;
                if entry != spouse {
                    proof {
                        if c0.contains(entry) {
                            let v = choose|v: int| 0 <= v < w && remaining@[v] == entry;
                            assert(remaining@[v] == remaining@[w as int]);
                        }
                    }
                    cleaned.push(entry);
                    pushed = true;
                }
                proof {
                    assert forall|x: CharacterId| #[trigger] cleaned@.contains(x) <==> ((exists|
                        v: int,
                    |
                        0 <= v < w + 1 && remaining@[v] == x) && x != spouse) by {
                        if pushed {
                            vstd::seq_lib::lemma_seq_contains_after_push(c0, entry, x);
                        }
                        if cleaned@.contains(x) && !c0.contains(x) {
                            assert(remaining@[w as int] == x);
                        }
                        if (exists|v: int| 0 <= v < w + 1 && remaining@[v] == x) && x != spouse {
                            let v = choose|v: int| 0 <= v < w + 1 && remaining@[v] == x;
                            if v < w {
                                assert(c0.contains(x));
                            } else {
                                assert(remaining@[w as int] == x);
                            }
                        }
                    }
                }
                w = w + 1;
            }
            proof {
                assert forall|x: CharacterId| #[trigger] cleaned@.contains(x) <==> (
                remaining@.contains(x) && x != spouse) by {
                    if remaining@.contains(x) {
                        let v = choose|v: int|
                            0 <= v < remaining@.len() && remaining@[v] == x;
                    }
                }
            }
            remaining = cleaned;
            proof {
                assert forall|x: CharacterId| #[trigger] remaining@.contains(x) <==> (
                marriageable_pred(d0.character_manager, d0.date, 18, 60, x)
                    && !marriage_selected(d0.character_manager, d0.date, *rng, 18, 60, 20, x)
                    && !(exists|kp: int|
                    0 <= kp < pairs.len() && (#[trigger] pairs[kp]).1 == x)) by {
                    let pairs0 = pairs_before;
                    assert(pairs == pairs_before.push((id, spouse)));
                    if exists|kp: int|
                        0 <= kp < pairs.len() && (#[trigger] pairs[kp]).1 == x {
                        let kp = choose|kp: int|
                            0 <= kp < pairs.len() && (#[trigger] pairs[kp]).1 == x;
                        if kp < pairs.len() - 1 {
                            assert(pairs0[kp] == pairs[kp]);
                        }
                    }
                    if exists|kp: int|
                        0 <= kp < pairs0.len() && (#[trigger] pairs0[kp]).1 == x {
                        let kp = choose|kp: int|
                            0 <= kp < pairs0.len() && (#[trigger] pairs0[kp]).1 == x;
                        assert(pairs[kp] == pairs0[kp]);
                    }
                }
            }
            proof {
                assert forall|s: CharacterId, c: CharacterId|
                    (selected_characters@.take(k + 1).contains(s) && (forall|kp: int|
                        0 <= kp < pairs.len() ==> (#[trigger] pairs[kp]).0 != s)
                        && #[trigger] marriage_candidate(d0.character_manager, d0.date, s, c)
                        && !marriage_selected(
                        d0.character_manager,
                        d0.date,
                        *rng,
                        18,
                        60,
                        20,
                        c,
                    )) implies exists|kp: int|
                    0 <= kp < pairs.len() && (#[trigger] pairs[kp]).1 == c by {
                    let pairs0 = pairs_before;
                    assert(pairs == pairs_before.push((id, spouse)));
                    assert(forall|kp: int|
                        0 <= kp < pairs0.len() ==> #[trigger] pairs0[kp] == pairs[kp]);
                    assert(pairs[pairs.len() - 1].0 == id);
                    let j = choose|j: int|
                        0 <= j < k + 1 && #[trigger] selected_characters@.take(k + 1)[j] == s;
                    if j == k {
                        assert(s == id);
                        assert(pairs[pairs.len() - 1].0 != s);
                        assert(false);
                    } else {
                        assert(selected_characters@.take(k as int)[j] == s);
                        assert(selected_characters@.take(k as int).contains(s));
                        assert forall|kp: int|
                            0 <= kp < pairs0.len() implies (#[trigger] pairs0[kp]).0 != s by {
                            assert(pairs[kp] == pairs0[kp]);
                        }
                        let kp = choose|kp: int|
                            0 <= kp < pairs0.len() && (#[trigger] pairs0[kp]).1 == c;
                        assert(pairs[kp] == pairs0[kp]);
                    }
                }
            }
        } else {
            proof {
                // nobody in the pool fits: every eligible partner was already
                // selected itself or taken by an earlier pair
                assert forall|s: CharacterId, c: CharacterId|
                    (selected_characters@.take(k + 1).contains(s) && (forall|kp: int|
                        0 <= kp < pairs.len() ==> (#[trigger] pairs[kp]).0 != s)
                        && #[trigger] marriage_candidate(d0.character_manager, d0.date, s, c)
                        && !marriage_selected(
                        d0.character_manager,
                        d0.date,
                        *rng,
                        18,
                        60,
                        20,
                        c,
                    )) implies exists|kp: int|
                    0 <= kp < pairs.len() && (#[trigger] pairs[kp]).1 == c by {
                    let j = choose|j: int|
                        0 <= j < k + 1 && #[trigger] selected_characters@.take(k + 1)[j] == s;
                    if j < k {
                        assert(selected_characters@.take(k as int)[j] == s);
                        assert(selected_characters@.take(k as int).contains(s));
                    }
                    if j == k && !selected_characters@.take(k as int).contains(s) {
                        assert(s == id);
                        if !(exists|kp: int|
                            0 <= kp < pairs.len() && (#[trigger] pairs[kp]).1 == c) {
                            assert(remaining@.contains(c));
                            let v = choose|v: int|
                                0 <= v < remaining@.len() && remaining@[v] == c;
                            assert(relative_ids(data.character_manager, id).contains(
                                remaining@[v],
                            ) || data.character_manager.chr(remaining@[v]).gender
                                != data.character_manager.chr(id).gender.spec_reverse());
                            if relative_ids(data.character_manager, id).contains(c) {
                                let kk = choose|kk: RelativeType|
                                    #[trigger] data.character_manager.chr(id).has_edge(
                                        RelationType::Relative(kk),
                                        c,
                                    );
                                assert(d0.character_manager.characters@[id.0 as int].has_edge(
                                    RelationType::Relative(kk),
                                    c,
                                ));
                                assert(relative_ids(d0.character_manager, id).contains(c));
                                assert(false);
                            }
                            assert(false);
                        }
                    }
                }
            }
        }
        k = k + 1;
    }
    proof {
        // every selected character was processed, so the pairing accounts for
        // all of them
        assert forall|s: CharacterId, c: CharacterId|
            (marriage_selected(d0.character_manager, d0.date, *rng, 18, 60, 20, s) && (forall|
                kp: int,
            |
                0 <= kp < pairs.len() ==> (#[trigger] pairs[kp]).0 != s)
                && #[trigger] marriage_candidate(d0.character_manager, d0.date, s, c)
                && !marriage_selected(d0.character_manager, d0.date, *rng, 18, 60, 20, c))
                implies exists|kp: int|
            0 <= kp < pairs.len() && (#[trigger] pairs[kp]).1 == c by {
            assert(selected_characters@.contains(s));
            assert(selected_characters@.take(sn as int) =~= selected_characters@);
            assert(selected_characters@.take(sn as int).contains(s));
        }
        assert(marriage_pairs_ok(d0, *data, *rng, pairs));
        assert(exists|ps: Seq<(CharacterId, CharacterId)>|
            #[trigger] marriage_pairs_ok(d0, *data, *rng, ps));
    }
}

/// Whether a couple has a child this year: both alive, the elder below the
/// age ceiling, and a roll under the chance.
pub open spec fn expecting_pred(
    m: CharacterMgr,
    date: Date,
    rng: RandomNumberGenerator,
    max_age: u32,
    chance_of_birth: u32,
    p: (CharacterId, CharacterId),
) -> bool {
    &&& m.chr(p.0).spec_is_alive()
    &&& m.chr(p.1).spec_is_alive()
    &&& (if date.0 - m.chr(p.0).birth_date.0 >= date.0 - m.chr(p.1).birth_date.0 {
        date.0 - m.chr(p.0).birth_date.0
    } else {
        date.0 - m.chr(p.1).birth_date.0
    }) <= max_age
    &&& spec_next(rng, date.0, p.0.0, BIRTH_USAGE) % 100 < chance_of_birth
}

/// The couples of a list that have a child this year, in list order.
pub open spec fn expecting_couples(
    m: CharacterMgr,
    date: Date,
    rng: RandomNumberGenerator,
    max_age: u32,
    chance_of_birth: u32,
    couples: Seq<(CharacterId, CharacterId)>,
) -> Seq<(CharacterId, CharacterId)>
    decreases couples.len(),
{
    if couples.len() == 0 {
        Seq::empty()
    } else {
        let rest = expecting_couples(m, date, rng, max_age, chance_of_birth, couples.drop_last());
        if expecting_pred(m, date, rng, max_age, chance_of_birth, couples.last()) {
            rest.push(couples.last())
        } else {
            rest
        }
    }
}

/// Every selected couple is one of the given couples and meets the birth
/// conditions.
pub proof fn lemma_expecting_sub(
    m: CharacterMgr,
    date: Date,
    rng: RandomNumberGenerator,
    max_age: u32,
    chance_of_birth: u32,
    couples: Seq<(CharacterId, CharacterId)>,
)
    ensures
        forall|j: int|
            0 <= j < expecting_couples(m, date, rng, max_age, chance_of_birth, couples).len()
                ==> (couples.contains(
                #[trigger] expecting_couples(m, date, rng, max_age, chance_of_birth, couples)[j],
            ) && expecting_pred(
                m,
                date,
                rng,
                max_age,
                chance_of_birth,
                expecting_couples(m, date, rng, max_age, chance_of_birth, couples)[j],
            )),
        expecting_couples(m, date, rng, max_age, chance_of_birth, couples).len()
            <= couples.len(),
    decreases couples.len(),
{
    if couples.len() > 0 {
        lemma_expecting_sub(m, date, rng, max_age, chance_of_birth, couples.drop_last());
        let rest = expecting_couples(
            m,
            date,
            rng,
            max_age,
            chance_of_birth,
            couples.drop_last(),
        );
        assert forall|j: int|
            0 <= j < couples.drop_last().len() && couples.drop_last().contains(
                #[trigger] couples.drop_last()[j],
            ) implies couples.contains(couples.drop_last()[j]) by {
            assert(couples[j] == couples.drop_last()[j]);
        }
        assert forall|p: (CharacterId, CharacterId)|
            #[trigger] couples.drop_last().contains(p) implies couples.contains(p) by {
            let j = choose|j: int|
                0 <= j < couples.drop_last().len() && couples.drop_last()[j] == p;
            assert(couples[j] == p);
        }
        assert(couples.contains(couples.last()));
    }
}

/// The couples of the given list that have a child this year: exactly those
/// with both partners alive, the elder at most `max_age`, and a birth roll
/// under the chance, in list order.
pub fn calculate_expecting(
    data: &SimulationData,
    rng: &RandomNumberGenerator,
    couples: &Vec<(CharacterId, CharacterId)>,
    max_age: u32,
    chance_of_birth: u32,
) -> (r: Vec<(CharacterId, CharacterId)>)
    requires
        ages_ok(data.character_manager, data.date),
        forall|j: int|
            0 <= j < couples@.len() ==> ((#[trigger] couples@[j]).0.0
                < data.character_manager.characters@.len() && couples@[j].1.0
                < data.character_manager.characters@.len()),
    ensures
        r@ == expecting_couples(
            data.character_manager,
            data.date,
            *rng,
            max_age,
            chance_of_birth,
            couples@,
        ),
{
    let mut expecting: Vec<(CharacterId, CharacterId)> = Vec::new();
    let n = couples.len();
    let mut i: usize = 0;
    proof {
        assert(couples@.take(0).len() == 0);
        assert(expecting@ =~= expecting_couples(
            data.character_manager,
            data.date,
            *rng,
            max_age,
            chance_of_birth,
            couples@.take(0),
        ));
    }
    while i < n
        invariant
            i <= n,
            n == couples@.len(),
            ages_ok(data.character_manager, data.date),
            forall|j: int|
                0 <= j < couples@.len() ==> ((#[trigger] couples@[j]).0.0
                    < data.character_manager.characters@.len() && couples@[j].1.0
                    < data.character_manager.characters@.len()),
            expecting@ == expecting_couples(
                data.character_manager,
                data.date,
                *rng,
                max_age,
                chance_of_birth,
                couples@.take(i as int),
            ),
        decreases n - i,
    {
        let pair = couples[i];
        proof {
            assert(couples@[i as int] == pair);
            assert(couples@.contains(pair));
        }
        let character0 = &data.character_manager.characters[pair.0.0];
        let character1 = &data.character_manager.characters[pair.1.0];
        let mut selected = false;
        if character0.is_alive() && character1.is_alive() {
            let age0 = character0.get_age(data.date);
            let age1 = character1.get_age(data.date);
            let age = if age0 >= age1 {
                age0
            } else {
                age1
            };
            if age <= max_age {
                let roll = rng.roll_d100(data.date.get_year(), pair.0.id(), BIRTH_USAGE);
                if roll < chance_of_birth {
                    expecting.push(pair);
                    selected = true;
                }
            }
        }
        proof {
            assert(selected == expecting_pred(
                data.character_manager,
                data.date,
                *rng,
                max_age,
                chance_of_birth,
                pair,
            ));
            assert(couples@.take(i + 1).drop_last() =~= couples@.take(i as int));
            assert(couples@.take(i + 1).last() == couples@[i as int]);
            assert(expecting@ == expecting_couples(
                data.character_manager,
                data.date,
                *rng,
                max_age,
                chance_of_birth,
                couples@.take(i + 1),
            ));
        }
        i = i + 1;
    }
    proof {
        assert(couples@.take(n as int) =~= couples@);
    }
    expecting
}

/// The record of the `j`-th newborn of the pass: alive, born this year,
/// gendered by id parity, and the child of exactly its couple.
pub open spec fn newborn_record_ok(
    d0: SimulationData,
    d1: SimulationData,
    expecting: Seq<(CharacterId, CharacterId)>,
    j: int,
) -> bool {
    let child = CharacterId((d0.character_manager.characters@.len() + j) as usize);
    &&& d1.character_manager.chr(child).spec_is_alive()
    &&& d1.character_manager.chr(child).birth_date == d0.date
    &&& d1.character_manager.chr(child).gender == (if child.0 % 2 == 0 {
        Gender::Male
    } else {
        Gender::Female
    })
    &&& forall|x: CharacterId|
        #[trigger] d1.character_manager.chr(child).has_edge(
            RelationType::Relative(RelativeType::Parent),
            x,
        ) <==> (x == expecting[j].0 || x == expecting[j].1)
}

/// What the birth pass leaves behind: one child per expecting couple of the
/// given list, appended in list order, each born this year with the
/// parity-based gender and with exactly its couple as parents; the records
/// that already existed keep their vitals and building edges.
pub open spec fn birth_pass_post(
    d0: SimulationData,
    d1: SimulationData,
    rng: RandomNumberGenerator,
    couples: Seq<(CharacterId, CharacterId)>,
) -> bool {
    let expecting = expecting_couples(d0.character_manager, d0.date, rng, 45, 10, couples);
    &&& d1.character_manager.wf()
    &&& d1.date == d0.date
    &&& d1.map == d0.map
    &&& d1.character_name_generator == d0.character_name_generator
    &&& d1.building_manager.buildings@.len() == d0.building_manager.buildings@.len()
    &&& ages_ok(d1.character_manager, d1.date)
    &&& d1.character_manager.characters@.len() == d0.character_manager.characters@.len()
        + expecting.len()
    &&& (building_edges_ok(d0.character_manager, d0.building_manager.buildings@.len() as int)
        ==> building_edges_ok(
        d1.character_manager,
        d1.building_manager.buildings@.len() as int,
    ))
    &&& forall|j: int|
        0 <= j < expecting.len() ==> #[trigger] newborn_record_ok(d0, d1, expecting, j)
    &&& forall|i: int|
        0 <= i < d0.character_manager.characters@.len() ==> ((#[trigger] d1.character_manager
            .characters@[i]).id == d0.character_manager.characters@[i].id
            && d1.character_manager.characters@[i].birth_date == d0.character_manager
            .characters@[i].birth_date && d1.character_manager.characters@[i].death_date
            == d0.character_manager.characters@[i].death_date && d1.character_manager
            .characters@[i].gender == d0.character_manager.characters@[i].gender
            && d1.character_manager.characters@[i].building_relations == d0.character_manager
            .characters@[i].building_relations)
}

/// Run the birth pass over the couples as the year started: exactly the
/// couples with both partners alive, the elder at most forty-five and a roll
/// under ten get one child each, in list order.
#[verifier::rlimit(100)]
#[verifier::spinoff_prover]
pub fn simulate_birth(
    data: &mut SimulationData,
    rng: &RandomNumberGenerator,
    couples: &Vec<(CharacterId, CharacterId)>,
)
    requires
        old(data).character_manager.wf(),
        ages_ok(old(data).character_manager, old(data).date),
        old(data).character_name_generator.male_names.total_value > 0,
        old(data).character_name_generator.female_names.total_value > 0,
        old(data).character_name_generator.family_names.total_value > 0,
        old(data).character_manager.characters@.len() + couples@.len() <= usize::MAX,
        forall|j: int|
            0 <= j < couples@.len() ==> ((#[trigger] couples@[j]).0.0 < old(
                data,
            ).character_manager.characters@.len() && couples@[j].1.0 < old(
                data,
            ).character_manager.characters@.len() && couples@[j].0 != couples@[j].1),
        forall|j: int|
            0 <= j < couples@.len() && old(data).character_manager.chr(
                (#[trigger] couples@[j]).0,
            ).spec_is_alive() && old(data).character_manager.chr(couples@[j].1).spec_is_alive()
                ==> (spec_first_building_edge(
                old(data).character_manager.chr(couples@[j].0).building_relations@,
                BuildingRelationType::Occupant,
            ) matches Some(b) && b.0 < old(data).building_manager.buildings@.len()),
    ensures
        birth_pass_post(*old(data), *final(data), *rng, couples@),
{
    let ghost d0 = *old(data);
    let expecting = calculate_expecting(data, rng, couples, 45, 10);
    proof {
        lemma_expecting_sub(d0.character_manager, d0.date, *rng, 45, 10, couples@);
    }
    let n = expecting.len();
    let mut k: usize = 0;
    while k < n
        invariant
            k <= n,
            n == expecting@.len(),
            data.character_manager.wf(),
            data.date == d0.date,
            data.map == d0.map,
            data.character_name_generator == d0.character_name_generator,
            data.character_name_generator.male_names.total_value > 0,
            data.character_name_generator.female_names.total_value > 0,
            data.character_name_generator.family_names.total_value > 0,
            ages_ok(data.character_manager, data.date),
            data.building_manager.buildings@.len() == d0.building_manager.buildings@.len(),
            data.character_manager.characters@.len() == d0.character_manager.characters@.len()
                + k,
            d0.character_manager.characters@.len() + n <= usize::MAX,

            building_edges_ok(
                d0.character_manager,
                d0.building_manager.buildings@.len() as int,
            ) ==> building_edges_ok(
                data.character_manager,
                d0.building_manager.buildings@.len() as int,
            ),
            expecting@ == expecting_couples(
                d0.character_manager,
                d0.date,
                *rng,
                45,
                10,
                couples@,
            ),
            forall|j: int|
                0 <= j < expecting@.len() ==> (couples@.contains(#[trigger] expecting@[j])
                    && expecting_pred(
                    d0.character_manager,
                    d0.date,
                    *rng,
                    45,
                    10,
                    expecting@[j],
                )),
            forall|j: int|
                0 <= j < couples@.len() ==> ((#[trigger] couples@[j]).0.0
                    < d0.character_manager.characters@.len() && couples@[j].1.0
                    < d0.character_manager.characters@.len() && couples@[j].0
                    != couples@[j].1),
            forall|j: int|
                0 <= j < couples@.len() && d0.character_manager.chr(
                    (#[trigger] couples@[j]).0,
                ).spec_is_alive() && d0.character_manager.chr(couples@[j].1).spec_is_alive()
                    ==> (spec_first_building_edge(
                    d0.character_manager.chr(couples@[j].0).building_relations@,
                    BuildingRelationType::Occupant,
                ) matches Some(b) && b.0 < d0.building_manager.buildings@.len()),
            forall|j: int|
                0 <= j < k ==> #[trigger] newborn_record_ok(d0, *data, expecting@, j),
            forall|i: int|
                0 <= i < d0.character_manager.characters@.len() ==> ((#[trigger] data
                    .character_manager.characters@[i]).id == d0.character_manager
                    .characters@[i].id && data.character_manager.characters@[i].birth_date
                    == d0.character_manager.characters@[i].birth_date && data
                    .character_manager.characters@[i].death_date == d0.character_manager
                    .characters@[i].death_date && data.character_manager.characters@[i].gender
                    == d0.character_manager.characters@[i].gender && data.character_manager
                    .characters@[i].building_relations == d0.character_manager.characters@[i]
                    .building_relations),
        decreases n - k,
    {
        let pair = expecting[k];
        let id0 = pair.0;
        let id1 = pair.1;
        proof {
            assert(expecting@[k as int] == pair);
            assert(couples@.contains(pair));
            let j = choose|j: int| 0 <= j < couples@.len() && couples@[j] == pair;
            assert(expecting_pred(d0.character_manager, d0.date, *rng, 45, 10, pair));
            assert(d0.character_manager.chr(id0).spec_is_alive());
            assert(d0.character_manager.chr(id1).spec_is_alive());
            assert(spec_first_building_edge(
                d0.character_manager.chr(id0).building_relations@,
                BuildingRelationType::Occupant,
            ) matches Some(b) && b.0 < d0.building_manager.buildings@.len());
            assert(data.character_manager.chr(id0).building_relations
                == d0.character_manager.chr(id0).building_relations);
        }
        let ghost pre = *data;
        let child = birth(data, id0, id1);
        proof {
            assert(child.0 == d0.character_manager.characters@.len() + k);
            // the earlier children keep their vitals and their parent edges:
            // a later birth never adds a Relative(Parent) edge to an existing
            // record
            assert forall|j: int|
                0 <= j < k + 1 implies #[trigger] newborn_record_ok(
                d0,
                *data,
                expecting@,
                j,
            ) by {
                let newborn = CharacterId((d0.character_manager.characters@.len() + j) as usize);
                if j < k {
                    assert(newborn_record_ok(d0, pre, expecting@, j));
                    assert(newborn.0 < pre.character_manager.characters@.len());
                    assert forall|x: CharacterId|
                        #[trigger] data.character_manager.chr(newborn).has_edge(
                            RelationType::Relative(RelativeType::Parent),
                            x,
                        ) <==> (x == expecting@[j].0 || x == expecting@[j].1) by {
                        assert(data.character_manager.characters@[newborn.0 as int].has_edge(
                            RelationType::Relative(RelativeType::Parent),
                            x,
                        ) <==> pre.character_manager.characters@[newborn.0 as int].has_edge(
                            RelationType::Relative(RelativeType::Parent),
                            x,
                        ) || (x == child && family_edge_to_newborn(
                            pre.character_manager,
                            id0,
                            id1,
                            newborn,
                            RelationType::Relative(RelativeType::Parent),
                        )));
                    }
                } else {
                    assert(newborn == child);
                    assert forall|x: CharacterId|
                        #[trigger] data.character_manager.chr(child).has_edge(
                            RelationType::Relative(RelativeType::Parent),
                            x,
                        ) <==> (x == id0 || x == id1) by {
                        assert(data.character_manager.chr(child).has_edge(
                            RelationType::Relative(RelativeType::Parent),
                            x,
                        ) <==> newborn_edge(
                            pre.character_manager,
                            id0,
                            id1,
                            RelationType::Relative(RelativeType::Parent),
                            x,
                        ));
                    }
                }
            }
            // building edges stay inside the store: the newborn got exactly
            // one occupancy edge into an existing home
            if building_edges_ok(
                d0.character_manager,
                d0.building_manager.buildings@.len() as int,
            ) {
                assert forall|i: int, e: int|
                    0 <= i < data.character_manager.characters@.len() && 0 <= e
                        < data.character_manager.characters@[i].building_relations@.len()
                    implies (#[trigger] data.character_manager.characters@[i]
                    .building_relations@[e]).id.0 < d0.building_manager.buildings@.len() by {
                    let edge = data.character_manager.characters@[i].building_relations@[e];
                    if i < pre.character_manager.characters@.len() {
                        assert(data.character_manager.characters@[i].building_relations
                            == pre.character_manager.characters@[i].building_relations);
                    } else {
                        assert(CharacterId(i as usize) == child);
                        assert(data.character_manager.chr(child).has_building_edge(
                            edge.relation_type,
                            edge.id,
                        ));
                        assert(edge.relation_type == BuildingRelationType::Occupant && Some(
                            edge.id,
                        ) == spec_first_building_edge(
                            pre.character_manager.chr(id0).building_relations@,
                            BuildingRelationType::Occupant,
                        ));
                    }
                }
            }
        }
        k = k + 1;
    }
    proof {
        assert(expecting@ == expecting_couples(
            d0.character_manager,
            d0.date,
            *rng,
            45,
            10,
            couples@,
        ));
        assert forall|j: int|
            0 <= j < expecting@.len() implies #[trigger] newborn_record_ok(
            d0,
            *data,
            expecting@,
            j,
        ) by {}
    }
}

/// Whether `couples` lists exactly the married couples of the store, each
/// once with the smaller id first.
pub open spec fn married_couples_listed(
    m: CharacterMgr,
    couples: Seq<(CharacterId, CharacterId)>,
) -> bool {
    &&& couples.no_duplicates()
    &&& forall|a: CharacterId, b: CharacterId|
        #[trigger] couples.contains((a, b)) <==> (a.0 <= b.0 && ((m.valid(a) && m.chr(
            a,
        ).has_edge(RelationType::Spouse, b)) || (m.valid(b) && m.chr(b).has_edge(
            RelationType::Spouse,
            a,
        ))) && (a.0 < b.0 || a == b))
}

/// Run the year's simulation, in the fixed order: the marriage pass, the
/// birth pass over the couples as the year started, the death pass, and the
/// advance of the calendar by one year. The birth pass is skipped only when
/// the new records could not be counted in a `usize`, which no real
/// population reaches.
pub fn simulate_year(data: &mut SimulationData) -> (trace: Ghost<
    (Seq<(CharacterId, CharacterId)>, SimulationData, SimulationData, SimulationData),
>)
    requires
        old(data).character_manager.wf(),
        ages_ok(old(data).character_manager, old(data).date),
        old(data).date.0 < u32::MAX,
        old(data).character_manager.characters@.len() <= usize::MAX,
        old(data).building_manager.buildings@.len() <= usize::MAX,
        building_edges_ok(
            old(data).character_manager,
            old(data).building_manager.buildings@.len() as int,
        ),
        old(data).character_name_generator.male_names.total_value > 0,
        old(data).character_name_generator.female_names.total_value > 0,
        old(data).character_name_generator.family_names.total_value > 0,
        forall|a: CharacterId, b: CharacterId|
            old(data).character_manager.valid(a) && #[trigger] old(data).character_manager.chr(
                a,
            ).has_edge(RelationType::Spouse, b) ==> a != b,
        forall|a: CharacterId, b: CharacterId|
            old(data).character_manager.valid(a) && #[trigger] old(data).character_manager.chr(
                a,
            ).has_edge(RelationType::Spouse, b) && old(data).character_manager.chr(
                a,
            ).spec_is_alive() && b.0 < old(data).character_manager.characters@.len() && old(
                data,
            ).character_manager.chr(b).spec_is_alive() ==> (spec_first_building_edge(
                old(data).character_manager.chr(a).building_relations@,
                BuildingRelationType::Occupant,
            ) matches Some(h) && h.0 < old(data).building_manager.buildings@.len()),
    ensures
        final(data).character_manager.wf(),
        final(data).date.0 == old(data).date.0 + 1,
        final(data).character_manager.characters@.len() >= old(
            data,
        ).character_manager.characters@.len(),
        ages_ok(final(data).character_manager, final(data).date),
        married_couples_listed(old(data).character_manager, trace@.0),
        marriage_pass_post(*old(data), trace@.1, RandomNumberGenerator::Hash),
        trace@.1.character_manager.characters@.len() + trace@.0.len() <= usize::MAX
            ==> birth_pass_post(
            trace@.1,
            trace@.2,
            RandomNumberGenerator::Hash,
            trace@.0,
        ),
        trace@.1.character_manager.characters@.len() + trace@.0.len() > usize::MAX ==> trace@.2
            == trace@.1,
        death_pass_post(trace@.2, trace@.3, RandomNumberGenerator::Hash),
        *final(data) == (SimulationData {
            date: crate::time::Date((old(data).date.0 + 1) as u32),
            ..trace@.3
        }),
{
    let rng = RandomNumberGenerator::Hash;
    let ghost d0 = *old(data);
    let couples = get_married_couples(&data.character_manager);
    proof {
        // every listed couple is valid, distinct and, while both live, housed
        assert forall|j: int|
            0 <= j < couples@.len() implies ((#[trigger] couples@[j]).0.0
            < d0.character_manager.characters@.len() && couples@[j].1.0
            < d0.character_manager.characters@.len() && couples@[j].0 != couples@[j].1) by {
            let p = couples@[j];
            assert(couples@.contains(p));
            let a = p.0;
            let b = p.1;
            if d0.character_manager.valid(a) && d0.character_manager.chr(a).has_edge(
                RelationType::Spouse,
                b,
            ) {
                crate::character::lemma_edge_symmetry(
                    d0.character_manager,
                    a,
                    RelationType::Spouse,
                    b,
                );
            } else {
                assert(d0.character_manager.valid(b) && d0.character_manager.chr(b).has_edge(
                    RelationType::Spouse,
                    a,
                ));
                crate::character::lemma_edge_symmetry(
                    d0.character_manager,
                    b,
                    RelationType::Spouse,
                    a,
                );
            }
        }
        assert forall|j: int|
            0 <= j < couples@.len() && d0.character_manager.chr(
                (#[trigger] couples@[j]).0,
            ).spec_is_alive() && d0.character_manager.chr(couples@[j].1).spec_is_alive()
            implies (spec_first_building_edge(
            d0.character_manager.chr(couples@[j].0).building_relations@,
            BuildingRelationType::Occupant,
        ) matches Some(h) && h.0 < d0.building_manager.buildings@.len()) by {
            let p = couples@[j];
            assert(couples@.contains(p));
            let a = p.0;
            let b = p.1;
            if !(d0.character_manager.valid(a) && d0.character_manager.chr(a).has_edge(
                RelationType::Spouse,
                b,
            )) {
                crate::character::lemma_edge_symmetry(
                    d0.character_manager,
                    b,
                    RelationType::Spouse,
                    a,
                );
            }
            assert(d0.character_manager.chr(a).has_edge(RelationType::Spouse, b));
        }
    }
    simulate_marriage(data, &rng);
    let ghost s1 = *data;
    proof {
        // the marriage pass kept every fact the birth pass needs
        assert(building_edges_ok(
            s1.character_manager,
            s1.building_manager.buildings@.len() as int,
        )) by {
            assert forall|i: int, e: int|
                0 <= i < s1.character_manager.characters@.len() && 0 <= e
                    < s1.character_manager.characters@[i].building_relations@.len() implies (
            #[trigger] s1.character_manager.characters@[i].building_relations@[e]).id.0
                < s1.building_manager.buildings@.len() by {
                assert(s1.character_manager.characters@[i].building_relations
                    == d0.character_manager.characters@[i].building_relations);
            }
        }
        assert forall|j: int|
            0 <= j < couples@.len() && s1.character_manager.chr(
                (#[trigger] couples@[j]).0,
            ).spec_is_alive() && s1.character_manager.chr(couples@[j].1).spec_is_alive()
            implies (spec_first_building_edge(
            s1.character_manager.chr(couples@[j].0).building_relations@,
            BuildingRelationType::Occupant,
        ) matches Some(h) && h.0 < s1.building_manager.buildings@.len()) by {
            let a = couples@[j].0;
            let b = couples@[j].1;
            assert(s1.character_manager.characters@[a.0 as int].building_relations
                == d0.character_manager.characters@[a.0 as int].building_relations);
            assert(s1.character_manager.characters@[a.0 as int].death_date
                == d0.character_manager.characters@[a.0 as int].death_date);
            assert(s1.character_manager.characters@[b.0 as int].death_date
                == d0.character_manager.characters@[b.0 as int].death_date);
        }
    }
    let room = data.character_manager.characters.len() <= usize::MAX - couples.len();
    if room {
        simulate_birth(data, &rng, &couples);
    }
    let ghost s2 = *data;
    proof {
        if room {
            assert(birth_pass_post(s1, s2, RandomNumberGenerator::Hash, couples@));
            lemma_expecting_sub(s1.character_manager, s1.date, rng, 45, 10, couples@);
            assert(s2.character_manager.characters@.len() <= usize::MAX);
        } else {
            assert(s2 == s1);
            assert(s1.character_manager.characters@.len() + couples@.len() > usize::MAX);
        }
        assert(s1.character_manager.characters@.len() + couples@.len() <= usize::MAX
            ==> birth_pass_post(s1, s2, RandomNumberGenerator::Hash, couples@));
        assert(s1.character_manager.characters@.len() + couples@.len() > usize::MAX ==> s2
            == s1);
        assert(building_edges_ok(
            s2.character_manager,
            s2.building_manager.buildings@.len() as int,
        ));
        assert(s2.building_manager.buildings@.len() == d0.building_manager.buildings@.len());
        assert(s2.character_manager.characters@.len() <= usize::MAX);
    }
    simulate_death(data, &rng);
    let ghost s3 = *data;
    data.date.increase_year();
    proof {
        assert(married_couples_listed(d0.character_manager, couples@));
        assert(marriage_pass_post(d0, s1, RandomNumberGenerator::Hash));
        assert(death_pass_post(s2, s3, RandomNumberGenerator::Hash));
        assert(married_couples_listed(old(data).character_manager, couples@));
        assert(marriage_pass_post(*old(data), s1, RandomNumberGenerator::Hash));
        assert(*data == (SimulationData {
            date: crate::time::Date((d0.date.0 + 1) as u32),
            ..s3
        }));
        assert(ages_ok(data.character_manager, data.date)) by {
            assert forall|i: int|
                0 <= i < data.character_manager.characters@.len() implies ((#[trigger] data
                .character_manager.characters@[i]).birth_date.0 <= data.date.0 && match data
                .character_manager.characters@[i].death_date {
                Some(d) => data.character_manager.characters@[i].birth_date.0 <= d.0 && d.0
                    <= data.date.0,
                None => true,
            }) by {
                assert(s3.character_manager.characters@[i]
                    == data.character_manager.characters@[i]);
            }
        }
    }
    Ghost((couples@, s1, s2, s3))
}

} // verus!
