use vstd::prelude::*;
use crate::character::{Character, CharacterId, CharacterMgr};
use crate::character_name::CharacterName;
use crate::gender::Gender;
use crate::relation::{Relation, RelationType};

verus! {

/// `b` is `a` with at most the relation edges changed.
pub open spec fn same_but_relations(a: Character, b: Character) -> bool {
    b == (Character { relations: b.relations, ..a })
}

/// `b` is `a` with at most the building edges changed.
pub open spec fn same_but_building_relations(a: Character, b: Character) -> bool {
    b == (Character { building_relations: b.building_relations, ..a })
}

/// `b` is `a` with at most the relation edges and the name changed.
pub open spec fn same_but_relations_and_name(a: Character, b: Character) -> bool {
    b == (Character { relations: b.relations, name: b.name, ..a })
}

pub fn get_name(manager: &CharacterMgr, id: CharacterId) -> (r: &CharacterName)
    requires
        manager.valid(id),
    ensures
        *r == manager.chr(id).name,
{
    &manager.characters[id.0].name
}

pub fn set_name(manager: &mut CharacterMgr, id: CharacterId, name: CharacterName)
    requires
        old(manager).valid(id),
    ensures
        final(manager).characters@ == old(manager).characters@.update(
            id.0 as int,
            Character { name, ..old(manager).chr(id) },
        ),
{
    let character = &mut manager.characters[id.0];
    character.set_name(name);
}

pub fn get_gender(manager: &CharacterMgr, id: CharacterId) -> (r: Gender)
    requires
        manager.valid(id),
    ensures
        r == manager.chr(id).gender,
{
    manager.characters[id.0].gender
}

pub fn set_gender(manager: &mut CharacterMgr, id: CharacterId, gender: Gender)
    requires
        old(manager).valid(id),
    ensures
        final(manager).characters@ == old(manager).characters@.update(
            id.0 as int,
            Character { gender, ..old(manager).chr(id) },
        ),
{
    let character = &mut manager.characters[id.0];
    character.set_gender(gender);
}

/// Gender is assigned deterministically from the parity of the id:
/// even ids are male, odd ids female.
pub fn set_gender_based_on_id(manager: &mut CharacterMgr, id: CharacterId)
    requires
        old(manager).valid(id),
    ensures
        final(manager).characters@ == old(manager).characters@.update(
            id.0 as int,
            Character {
                gender: if id.0 % 2 == 0 {
                    Gender::Male
                } else {
                    Gender::Female
                },
                ..old(manager).chr(id)
            },
        ),
{
    let gender = if id.id() % 2 == 0 {
        Gender::Male
    } else {
        Gender::Female
    };
    set_gender(manager, id, gender);
}

/// Add one symmetric relation: `character1` records that `character0` stands
/// in `relation_type` to it, and `character0` records the reverse edge back.
/// Both sides are always added together, which keeps the store symmetric.
pub fn add_relation(
    manager: &mut CharacterMgr,
    character0: CharacterId,
    character1: CharacterId,
    relation_type: RelationType,
)
    requires
        old(manager).valid(character0),
        old(manager).valid(character1),
    ensures
        final(manager).characters@.len() == old(manager).characters@.len(),
        forall|i: int|
            0 <= i < old(manager).characters@.len() ==> same_but_relations(
                old(manager).characters@[i],
                #[trigger] final(manager).characters@[i],
            ),
        forall|i: int|
            0 <= i < old(manager).characters@.len() && i != character0.0 && i != character1.0
                ==> (#[trigger] final(manager).characters@[i]).relations
                == old(manager).characters@[i].relations,
        character0 != character1 ==> {
            &&& final(manager).chr(character1).relations@ == old(manager).chr(
                character1,
            ).relations@.push(Relation { relation_type, id: character0 })
            &&& final(manager).chr(character0).relations@ == old(manager).chr(
                character0,
            ).relations@.push(
                Relation { relation_type: relation_type.spec_reverse(), id: character1 },
            )
        },
        character0 == character1 ==> final(manager).chr(character0).relations@ == old(
            manager,
        ).chr(character0).relations@.push(Relation { relation_type, id: character0 }).push(
            Relation { relation_type: relation_type.spec_reverse(), id: character0 },
        ),
        old(manager).wf() ==> final(manager).wf(),
{
    let relation = Relation::new(relation_type, character0);
    manager.characters[character1.0].relations.push(relation);
    let reverse = Relation::new(relation_type.reverse(), character1);
    manager.characters[character0.0].relations.push(reverse);
    proof {
        broadcast use vstd::seq_lib::lemma_seq_contains_after_push;

        if old(manager).wf() {
            assert(manager.ids_consistent());
            assert forall|i: int, k: int|
                0 <= i < manager.characters@.len() && 0 <= k < manager.characters@[i].relations@.len() implies {
                let edge = #[trigger] manager.characters@[i].relations@[k];
                &&& edge.id.0 < manager.characters@.len()
                &&& manager.characters@[edge.id.0 as int].has_edge(
                    edge.relation_type.spec_reverse(),
                    CharacterId(i as usize),
                )
            } by {
                let edge = manager.characters@[i].relations@[k];
                let old_rels = old(manager).characters@[i].relations@;
                if k < old_rels.len() && edge == old_rels[k] {
                    // an edge that was already present: its reverse edge was
                    // present too, and edge lists only grew
                    assert(old(manager).characters@[edge.id.0 as int].has_edge(
                        edge.relation_type.spec_reverse(),
                        CharacterId(i as usize),
                    ));
                    let k2 = choose|k2: int|
                        0 <= k2 < old(manager).characters@[edge.id.0 as int].relations@.len()
                            && old(manager).characters@[edge.id.0 as int].relations@[k2]
                            == (Relation {
                            relation_type: edge.relation_type.spec_reverse(),
                            id: CharacterId(i as usize),
                        });
                    assert(manager.characters@[edge.id.0 as int].relations@[k2]
                        == (Relation {
                        relation_type: edge.relation_type.spec_reverse(),
                        id: CharacterId(i as usize),
                    }));
                } else {
                    // one of the two edges this call added; the other one is
                    // its reverse, and reversing twice gives the type back
                    assert(i == character0.0 || i == character1.0);
                    if i == character1.0 && edge == (Relation {
                        relation_type,
                        id: character0,
                    }) {
                        let c0 = manager.characters@[character0.0 as int];
                        assert(c0.relations@.last() == (Relation {
                            relation_type: relation_type.spec_reverse(),
                            id: character1,
                        }));
                        assert(c0.has_edge(
                            relation_type.spec_reverse(),
                            CharacterId(character1.0),
                        ));
                        assert(CharacterId(i as usize) == character1);
                    } else {
                        assert(i == character0.0 && edge == (Relation {
                            relation_type: relation_type.spec_reverse(),
                            id: character1,
                        }));
                        let c1 = manager.characters@[character1.0 as int];
                        assert(c1.relations@.contains(Relation {
                            relation_type,
                            id: character0,
                        }));
                        assert(edge.relation_type.spec_reverse() == relation_type);
                        assert(c1.has_edge(relation_type, CharacterId(character0.0)));
                        assert(CharacterId(i as usize) == character0);
                    }
                }
            }
        }
    }
}

/// Add the same symmetric relation between `character` and every id in
/// `others`: each member records the edge, and `character` records the
/// reverse edge back, in list order.
pub fn add_relations(
    manager: &mut CharacterMgr,
    character: CharacterId,
    others: &Vec<CharacterId>,
    relation_type: RelationType,
)
    requires
        old(manager).valid(character),
        forall|k: int|
            0 <= k < others@.len() ==> (#[trigger] others@[k]).0 < old(manager).spec_len(),
        !others@.contains(character),
        others@.no_duplicates(),
    ensures
        final(manager).characters@.len() == old(manager).characters@.len(),
        forall|i: int|
            0 <= i < old(manager).characters@.len() ==> same_but_relations(
                old(manager).characters@[i],
                #[trigger] final(manager).characters@[i],
            ),
        final(manager).chr(character).relations@ == old(manager).chr(character).relations@
            + others@.map_values(
            |o: CharacterId| Relation { relation_type: relation_type.spec_reverse(), id: o },
        ),
        forall|k: int|
            0 <= k < others@.len() ==> (#[trigger] final(manager).chr(others@[k])).relations@
                == old(manager).chr(others@[k]).relations@.push(
                Relation { relation_type, id: character },
            ),
        forall|i: int|
            0 <= i < old(manager).characters@.len() && i != character.0
                && !others@.contains(CharacterId(i as usize)) ==> (#[trigger] final(manager).characters@[i]).relations == old(manager).characters@[i].relations,
        old(manager).wf() ==> final(manager).wf(),
{
    broadcast use vstd::seq_lib::lemma_seq_contains_after_push;

    let n = others.len();
    let mut k: usize = 0;
    proof {
        let f = |o: CharacterId| Relation {
            relation_type: relation_type.spec_reverse(),
            id: o,
        };
        assert(others@.take(0).map_values(f) =~= Seq::<Relation>::empty());
        assert(old(manager).chr(character).relations@ + others@.take(0).map_values(f)
            =~= old(manager).chr(character).relations@);
    }
    while k < n
        invariant
            k <= n,
            n == others@.len(),
            old(manager).valid(character),
            forall|j: int|
                0 <= j < others@.len() ==> (#[trigger] others@[j]).0 < old(manager).spec_len(),
            !others@.contains(character),
            others@.no_duplicates(),
            manager.characters@.len() == old(manager).characters@.len(),
            forall|i: int|
                0 <= i < old(manager).characters@.len() ==> same_but_relations(
                    old(manager).characters@[i],
                    #[trigger] manager.characters@[i],
                ),
            manager.chr(character).relations@ == old(manager).chr(character).relations@
                + others@.take(k as int).map_values(
                |o: CharacterId| Relation { relation_type: relation_type.spec_reverse(), id: o },
            ),
            forall|j: int|
                0 <= j < k ==> (#[trigger] manager.chr(others@[j])).relations@ == old(
                    manager,
                ).chr(others@[j]).relations@.push(Relation { relation_type, id: character }),
            forall|i: int|
                0 <= i < old(manager).characters@.len() && i != character.0
                    && !others@.contains(CharacterId(i as usize)) ==> (#[trigger] manager
                    .characters@[i]).relations == old(manager).characters@[i].relations,
            forall|j: int|
                k <= j < others@.len() ==> (#[trigger] manager.chr(others@[j])).relations
                    == old(manager).chr(others@[j]).relations,
            old(manager).wf() ==> manager.wf(),
        decreases n - k,
    {
        let other = others[k];
        proof {
            assert(others@[k as int] == other);
            assert(others@.contains(other));
            assert(other != character);
        }
        let ghost pre = *manager;
        add_relation(manager, character, other, relation_type);
        proof {
            assert(manager.chr(other).relations@ == pre.chr(other).relations@.push(
                Relation { relation_type, id: character },
            ));
            assert(pre.chr(other).relations == old(manager).chr(other).relations);
            assert(manager.chr(character).relations@ == pre.chr(character).relations@.push(
                Relation { relation_type: relation_type.spec_reverse(), id: other },
            ));
            let f = |o: CharacterId| Relation {
                relation_type: relation_type.spec_reverse(),
                id: o,
            };
            assert(others@.take(k + 1) =~= others@.take(k as int).push(other));
            assert(others@.take(k + 1).map_values(f) =~= others@.take(k as int).map_values(
                f,
            ).push(f(other)));
            assert(manager.chr(character).relations@ == old(manager).chr(character).relations@
                + others@.take(k + 1).map_values(f));
            assert forall|j: int| 0 <= j < k + 1 implies (#[trigger] manager.chr(
                others@[j],
            )).relations@ == old(manager).chr(others@[j]).relations@.push(
                Relation { relation_type, id: character },
            ) by {
                if j < k {
                    assert(others@[j] != others@[k as int]);
                    assert(others@[j].0 != other.0);
                    assert(others@.contains(others@[j]));
                    assert(others@[j].0 != character.0);
                    assert(0 <= others@[j].0 < pre.characters@.len());
                    assert(manager.characters@[others@[j].0 as int].relations
                        == pre.characters@[others@[j].0 as int].relations);
                    assert(pre.chr(others@[j]).relations@ == old(manager).chr(
                        others@[j],
                    ).relations@.push(Relation { relation_type, id: character }));
                } else {
                    assert(others@[j] == other);
                }
            }
            assert forall|j: int|
                k + 1 <= j < others@.len() implies (#[trigger] manager.chr(
                others@[j],
            )).relations == old(manager).chr(others@[j]).relations by {
                assert(others@[j] != others@[k as int]);
                assert(others@[j].0 != other.0);
                assert(others@.contains(others@[j]));
                assert(others@[j].0 != character.0);
                assert(0 <= others@[j].0 < pre.characters@.len());
                assert(manager.characters@[others@[j].0 as int].relations
                    == pre.characters@[others@[j].0 as int].relations);
                assert(pre.chr(others@[j]).relations == old(manager).chr(others@[j]).relations);
            }
        }
        k = k + 1;
    }
    proof {
        assert(others@.take(n as int) =~= others@);
    }
}

} // verus!
