use vstd::prelude::*;
use crate::character::{Character, CharacterId, CharacterMgr};
use crate::character_usecase::{add_relation, add_relations, same_but_relations};
use crate::relation::{Relation, RelationType, RelativeType};
use crate::relation_get::{
    combine, contains_id, get_children, get_direct_relation, get_parents, get_shared_children,
    get_spouses, rel_ids,
};
use crate::building_usecase::spec_first_building_edge;
use crate::character_usecase::set_gender_based_on_id;
use crate::character_name::NameView;
use crate::gender::Gender;
use crate::time::Date;
use crate::SimulationData;

verus! {

/// The children a couple has in common.
pub open spec fn birth_siblings(m: CharacterMgr, f: CharacterId, mo: CharacterId) -> Set<
    CharacterId,
> {
    rel_ids(m, f, RelationType::Relative(RelativeType::Child)).intersect(
        rel_ids(m, mo, RelationType::Relative(RelativeType::Child)),
    )
}

/// The parents of either member of a couple.
pub open spec fn birth_grandparents(m: CharacterMgr, f: CharacterId, mo: CharacterId) -> Set<
    CharacterId,
> {
    rel_ids(m, f, RelationType::Relative(RelativeType::Parent)).union(
        rel_ids(m, mo, RelationType::Relative(RelativeType::Parent)),
    )
}

/// The siblings of either member of a couple.
pub open spec fn birth_piblings(m: CharacterMgr, f: CharacterId, mo: CharacterId) -> Set<
    CharacterId,
> {
    rel_ids(m, f, RelationType::Relative(RelativeType::Sibling)).union(
        rel_ids(m, mo, RelationType::Relative(RelativeType::Sibling)),
    )
}

/// The children of the couple's piblings.
pub open spec fn birth_cousins(m: CharacterMgr, f: CharacterId, mo: CharacterId) -> Set<
    CharacterId,
> {
    Set::new(
        |x: CharacterId|
            exists|p: CharacterId|
                birth_piblings(m, f, mo).contains(p) && rel_ids(
                    m,
                    p,
                    RelationType::Relative(RelativeType::Child),
                ).contains(x),
    )
}

/// Everybody a newborn of the couple is related to by blood: the parents
/// themselves and the four derived classes.
pub open spec fn birth_relatives(m: CharacterMgr, f: CharacterId, mo: CharacterId) -> Set<
    CharacterId,
> {
    birth_siblings(m, f, mo).union(birth_grandparents(m, f, mo)).union(
        birth_piblings(m, f, mo),
    ).union(birth_cousins(m, f, mo)).insert(f).insert(mo)
}

/// The spouses of the members of `targets` that are outside the exclusion
/// list: the people a newborn is tied to as in-laws for this class.
pub open spec fn in_law_targets(
    m: CharacterMgr,
    targets: Seq<CharacterId>,
    relatives: Seq<CharacterId>,
) -> Set<CharacterId> {
    Set::new(
        |s: CharacterId|
            exists|k: int|
                0 <= k < targets.len() && m.chr(#[trigger] targets[k]).has_edge(
                    RelationType::Spouse,
                    s,
                ) && !relatives.contains(s),
    )
}

/// The partial in-law target set after the first `k` targets, plus the
/// spouses of target `k` seen so far.
spec fn in_law_targets_partial(
    m: CharacterMgr,
    targets: Seq<CharacterId>,
    relatives: Seq<CharacterId>,
    k: int,
    extra: Seq<CharacterId>,
) -> Set<CharacterId> {
    in_law_targets(m, targets.take(k), relatives).union(
        Set::new(
            |s: CharacterId| extra.contains(s) && !relatives.contains(s),
        ),
    )
}

/// Tie `character` to the spouses of every member of `targets` that is not in
/// the `relatives` exclusion list: each such spouse records the in-law edge of
/// kind `relative_type`, and `character` records the reverse kind back.
fn add_in_laws(
    manager: &mut CharacterMgr,
    character: CharacterId,
    targets: &Vec<CharacterId>,
    relatives: &Vec<CharacterId>,
    relative_type: RelativeType,
)
    requires
        old(manager).wf(),
        old(manager).valid(character),
        forall|k: int|
            0 <= k < targets@.len() ==> (#[trigger] targets@[k]).0 < old(manager).spec_len(),
        forall|x: CharacterId|
            !old(manager).chr(character).has_edge(RelationType::Spouse, x),
    ensures
        final(manager).characters@.len() == old(manager).characters@.len(),
        final(manager).wf(),
        forall|i: int|
            0 <= i < old(manager).characters@.len() ==> same_but_relations(
                old(manager).characters@[i],
                #[trigger] final(manager).characters@[i],
            ),
        forall|i: int, t: RelationType, x: CharacterId|
            0 <= i < old(manager).characters@.len() && i != character.0 ==> (#[trigger] final(manager).characters@[i].has_edge(t, x) <==> old(manager).characters@[i].has_edge(t, x) || (x
                == character && t == RelationType::InLaw(relative_type) && in_law_targets(
                *old(manager),
                targets@,
                relatives@,
            ).contains(CharacterId(i as usize)))),
        forall|t: RelationType, x: CharacterId|
            #[trigger] final(manager).chr(character).has_edge(t, x) <==> old(manager).chr(
                character,
            ).has_edge(t, x) || (t == RelationType::InLaw(relative_type.spec_reverse())
                && in_law_targets(*old(manager), targets@, relatives@).contains(x)),
{
    let ghost m0 = *old(manager);
    let relation_type = RelationType::InLaw(relative_type);
    let n = targets.len();
    let mut k: usize = 0;
    proof {
        assert(targets@.take(0) =~= Seq::<CharacterId>::empty());
        assert forall|i: int, t: RelationType, x: CharacterId|
            0 <= i < m0.characters@.len() && i != character.0 implies (#[trigger] manager.characters@[i].has_edge(t, x) <==> m0.characters@[i].has_edge(t, x) || (x
            == character && t == relation_type && in_law_targets_partial(
            m0,
            targets@,
            relatives@,
            0,
            Seq::<CharacterId>::empty(),
        ).contains(CharacterId(i as usize)))) by {}
    }
    while k < n
        invariant
            k <= n,
            n == targets@.len(),
            manager.wf(),
            m0 == *old(manager),
            m0.wf(),
            m0.valid(character),
            manager.characters@.len() == m0.characters@.len(),
            forall|j: int|
                0 <= j < targets@.len() ==> (#[trigger] targets@[j]).0 < m0.spec_len(),
            forall|x: CharacterId| !m0.chr(character).has_edge(RelationType::Spouse, x),
            relation_type == RelationType::InLaw(relative_type),
            forall|i: int|
                0 <= i < m0.characters@.len() ==> same_but_relations(
                    m0.characters@[i],
                    #[trigger] manager.characters@[i],
                ),
            forall|i: int, t: RelationType, x: CharacterId|
                0 <= i < m0.characters@.len() && i != character.0 ==> (#[trigger] manager.characters@[i].has_edge(t, x) <==> m0.characters@[i].has_edge(t, x) || (x
                    == character && t == relation_type && in_law_targets(
                    m0,
                    targets@.take(k as int),
                    relatives@,
                ).contains(CharacterId(i as usize)))),
            forall|t: RelationType, x: CharacterId|
                #[trigger] manager.chr(character).has_edge(t, x) <==> m0.chr(character).has_edge(
                    t,
                    x,
                ) || (t == RelationType::InLaw(relative_type.spec_reverse()) && in_law_targets(
                    m0,
                    targets@.take(k as int),
                    relatives@,
                ).contains(x)),
        decreases n - k,
    {
        let target = targets[k];
        let spouses = get_spouses(manager, target);
        proof {
            // the spouse edges of the target are untouched so far, so the
            // current lookup agrees with the pre-birth state
            assert(targets@[k as int] == target);
            assert(target.0 < m0.spec_len());
            assert(target.0 != character.0 || target == character);
            if target == character {
                assert forall|x: CharacterId| !#[trigger] spouses@.contains(x) by {
                    if spouses@.contains(x) {
                        assert(manager.chr(character).has_edge(RelationType::Spouse, x));
                        assert(RelationType::Spouse != RelationType::InLaw(
                            relative_type.spec_reverse(),
                        ));
                        assert(m0.chr(character).has_edge(RelationType::Spouse, x));
                    }
                }
            } else {
                assert forall|x: CharacterId| #[trigger] spouses@.contains(x) <==> m0.chr(
                    target,
                ).has_edge(RelationType::Spouse, x) by {
                    assert(rel_ids(*manager, target, RelationType::Spouse).contains(x)
                        <==> manager.chr(target).has_edge(RelationType::Spouse, x));
                    assert(manager.characters@[target.0 as int].has_edge(RelationType::Spouse, x)
                        <==> m0.characters@[target.0 as int].has_edge(RelationType::Spouse, x)
                        || (x == character && RelationType::Spouse == relation_type
                        && in_law_targets(m0, targets@.take(k as int), relatives@).contains(
                        CharacterId(target.0),
                    )));
                }
            }
            assert(in_law_targets_partial(m0, targets@, relatives@, k as int, spouses@.take(0))
                =~= in_law_targets(m0, targets@.take(k as int), relatives@)) by {
                assert(spouses@.take(0) =~= Seq::<CharacterId>::empty());
            }
        }
        let m = spouses.len();
        let mut l: usize = 0;
        while l < m
            invariant
                l <= m,
                m == spouses@.len(),
                k < n,
                n == targets@.len(),
                manager.wf(),
                m0 == *old(manager),
                m0.wf(),
                m0.valid(character),
                manager.characters@.len() == m0.characters@.len(),
                forall|j: int|
                    0 <= j < targets@.len() ==> (#[trigger] targets@[j]).0 < m0.spec_len(),
                forall|x: CharacterId| !m0.chr(character).has_edge(RelationType::Spouse, x),
                relation_type == RelationType::InLaw(relative_type),
                target == targets@[k as int],
                forall|x: CharacterId| #[trigger] spouses@.contains(x) ==> (target != character
                    && m0.chr(target).has_edge(RelationType::Spouse, x)),
                forall|i: int|
                    0 <= i < m0.characters@.len() ==> same_but_relations(
                        m0.characters@[i],
                        #[trigger] manager.characters@[i],
                    ),
                forall|i: int, t: RelationType, x: CharacterId|
                    0 <= i < m0.characters@.len() && i != character.0 ==> (#[trigger] manager.characters@[i].has_edge(t, x) <==> m0.characters@[i].has_edge(t, x) || (
                    x == character && t == relation_type && in_law_targets_partial(
                        m0,
                        targets@,
                        relatives@,
                        k as int,
                        spouses@.take(l as int),
                    ).contains(CharacterId(i as usize)))),
                forall|t: RelationType, x: CharacterId|
                    #[trigger] manager.chr(character).has_edge(t, x) <==> m0.chr(
                        character,
                    ).has_edge(t, x) || (t == RelationType::InLaw(relative_type.spec_reverse())
                        && in_law_targets_partial(
                        m0,
                        targets@,
                        relatives@,
                        k as int,
                        spouses@.take(l as int),
                    ).contains(x)),
            decreases m - l,
        {
            let spouse = spouses[l];
            proof {
                assert(spouses@.contains(spouse));
                assert(m0.chr(target).has_edge(RelationType::Spouse, spouse));
                // the spouse id is valid because the store is symmetric
                let rels = m0.chr(target).relations@;
                let e = choose|j: int|
                    0 <= j < rels.len() && rels[j] == (Relation {
                        relation_type: RelationType::Spouse,
                        id: spouse,
                    });
                assert(m0.characters@[target.0 as int].relations@[e].id.0
                    < m0.characters@.len());
                // the spouse is not `character`, which has no spouse edges
                if spouse == character {
                    assert(m0.characters@[target.0 as int].relations@[e] == (Relation {
                        relation_type: RelationType::Spouse,
                        id: character,
                    }));
                    assert(m0.characters@[character.0 as int].has_edge(
                        RelationType::Spouse.spec_reverse(),
                        CharacterId(target.0),
                    ));
                    assert(false);
                }
            }
            let ghost pre = *manager;
            if !contains_id(relatives, spouse) {
                add_relation(manager, character, spouse, relation_type);
            }
            proof {
                broadcast use vstd::seq_lib::lemma_seq_contains_after_push;

                let before = in_law_targets_partial(
                    m0,
                    targets@,
                    relatives@,
                    k as int,
                    spouses@.take(l as int),
                );
                let after = in_law_targets_partial(
                    m0,
                    targets@,
                    relatives@,
                    k as int,
                    spouses@.take(l + 1),
                );
                assert(spouses@.take(l + 1) =~= spouses@.take(l as int).push(spouse));
                assert forall|s: CharacterId| after.contains(s) <==> before.contains(s) || (s
                    == spouse && !relatives@.contains(spouse)) by {
                    assert(spouses@.take(l + 1).contains(s) <==> spouses@.take(
                        l as int,
                    ).contains(s) || s == spouse);
                }
                if !relatives@.contains(spouse) {
                    // one symmetric in-law pair was added
                    assert(manager.chr(spouse).relations@ == pre.chr(spouse).relations@.push(
                        Relation { relation_type, id: character },
                    ));
                    assert(manager.chr(character).relations@ == pre.chr(
                        character,
                    ).relations@.push(
                        Relation {
                            relation_type: relation_type.spec_reverse(),
                            id: character,
                        },
                    ) || manager.chr(character).relations@ == pre.chr(character).relations@.push(
                        Relation {
                            relation_type: relation_type.spec_reverse(),
                            id: spouse,
                        },
                    ));
                    assert forall|i: int, t: RelationType, x: CharacterId|
                        0 <= i < m0.characters@.len() && i != character.0 implies (#[trigger] manager.characters@[i].has_edge(t, x) <==> m0.characters@[i]
                        .has_edge(t, x) || (x == character && t == relation_type
                        && after.contains(CharacterId(i as usize)))) by {
                        if i == spouse.0 {
                            assert(manager.characters@[i].relations@ == pre.characters@[i]
                                .relations@.push(Relation { relation_type, id: character }));
                            assert(manager.characters@[i].has_edge(t, x) <==> pre.characters@[i]
                                .has_edge(t, x) || (t == relation_type && x == character)) by {
                                if manager.characters@[i].has_edge(t, x) {
                                    let j = choose|j: int|
                                        0 <= j < manager.characters@[i].relations@.len()
                                            && manager.characters@[i].relations@[j] == (Relation {
                                            relation_type: t,
                                            id: x,
                                        });
                                    if j < pre.characters@[i].relations@.len() {
                                        assert(pre.characters@[i].has_edge(t, x));
                                    }
                                }
                                if pre.characters@[i].has_edge(t, x) {
                                    let j = choose|j: int|
                                        0 <= j < pre.characters@[i].relations@.len()
                                            && pre.characters@[i].relations@[j] == (Relation {
                                            relation_type: t,
                                            id: x,
                                        });
                                    assert(manager.characters@[i].relations@[j] == (Relation {
                                        relation_type: t,
                                        id: x,
                                    }));
                                }
                                if t == relation_type && x == character {
                                    let len = pre.characters@[i].relations@.len() as int;
                                    assert(manager.characters@[i].relations@[len] == (Relation {
                                        relation_type: t,
                                        id: x,
                                    }));
                                }
                            }
                            assert(after.contains(spouse));
                        } else {
                            assert(manager.characters@[i].relations
                                == pre.characters@[i].relations);
                        }
                    }
                    assert forall|t: RelationType, x: CharacterId|
                        #[trigger] manager.chr(character).has_edge(t, x) <==> m0.chr(
                        character,
                    ).has_edge(t, x) || (t == RelationType::InLaw(relative_type.spec_reverse())
                        && after.contains(x)) by {
                        let i = character.0 as int;
                        assert(manager.characters@[i].relations@ == pre.characters@[i]
                            .relations@.push(
                            Relation {
                                relation_type: relation_type.spec_reverse(),
                                id: spouse,
                            },
                        ));
                        if manager.characters@[i].has_edge(t, x) {
                            let j = choose|j: int|
                                0 <= j < manager.characters@[i].relations@.len()
                                    && manager.characters@[i].relations@[j] == (Relation {
                                    relation_type: t,
                                    id: x,
                                });
                            if j < pre.characters@[i].relations@.len() {
                                assert(pre.characters@[i].has_edge(t, x));
                            } else {
                                assert(t == relation_type.spec_reverse() && x == spouse);
                            }
                        }
                        if pre.characters@[i].has_edge(t, x) {
                            let j = choose|j: int|
                                0 <= j < pre.characters@[i].relations@.len()
                                    && pre.characters@[i].relations@[j] == (Relation {
                                    relation_type: t,
                                    id: x,
                                });
                            assert(manager.characters@[i].relations@[j] == (Relation {
                                relation_type: t,
                                id: x,
                            }));
                        }
                        if t == relation_type.spec_reverse() && after.contains(x) {
                            if before.contains(x) {
                                assert(pre.chr(character).has_edge(t, x));
                            } else {
                                assert(x == spouse);
                                let len = pre.characters@[i].relations@.len() as int;
                                assert(manager.characters@[i].relations@[len] == (Relation {
                                    relation_type: t,
                                    id: x,
                                }));
                            }
                        }
                        assert(RelationType::InLaw(relative_type.spec_reverse())
                            == relation_type.spec_reverse());
                    }
                } else {
                    assert(after =~= before);
                }
            }
            l = l + 1;
        }
        proof {
            // all spouses of this target processed: fold them into the prefix set
            assert(targets@.take(k + 1) =~= targets@.take(k as int).push(target));
            assert forall|s: CharacterId|
                in_law_targets_partial(m0, targets@, relatives@, k as int, spouses@.take(m as int))
                    .contains(s) <==> in_law_targets(m0, targets@.take(k + 1), relatives@)
                    .contains(s) by {
                assert(spouses@.take(m as int) =~= spouses@);
                if in_law_targets(m0, targets@.take(k + 1), relatives@).contains(s) {
                    let j = choose|j: int|
                        0 <= j < targets@.take(k + 1).len() && m0.chr(
                            #[trigger] targets@.take(k + 1)[j],
                        ).has_edge(RelationType::Spouse, s) && !relatives@.contains(s);
                    if j < k {
                        assert(targets@.take(k as int)[j] == targets@.take(k + 1)[j]);
                        assert(in_law_targets(m0, targets@.take(k as int), relatives@).contains(
                            s,
                        ));
                    } else {
                        assert(targets@.take(k + 1)[j] == target);
                        assert(spouses@.contains(s));
                    }
                }
                if in_law_targets_partial(
                    m0,
                    targets@,
                    relatives@,
                    k as int,
                    spouses@,
                ).contains(s) {
                    if in_law_targets(m0, targets@.take(k as int), relatives@).contains(s) {
                        let j = choose|j: int|
                            0 <= j < targets@.take(k as int).len() && m0.chr(
                                #[trigger] targets@.take(k as int)[j],
                            ).has_edge(RelationType::Spouse, s) && !relatives@.contains(s);
                        assert(targets@.take(k + 1)[j] == targets@.take(k as int)[j]);
                        assert(in_law_targets(m0, targets@.take(k + 1), relatives@).contains(s));
                    } else {
                        assert(spouses@.contains(s) && !relatives@.contains(s));
                        assert(targets@.take(k + 1)[k as int] == target);
                        assert(in_law_targets(m0, targets@.take(k + 1), relatives@).contains(s));
                    }
                }
            }
        }
        k = k + 1;
    }
    proof {
        assert(targets@.take(n as int) =~= targets@);
    }
}


/// The two parents as a set.
pub open spec fn birth_parents(f: CharacterId, mo: CharacterId) -> Set<CharacterId> {
    Set::<CharacterId>::empty().insert(f).insert(mo)
}

/// The spouses of the members of `class` that are not blood relatives of the
/// newborn; they become its in-laws.
pub open spec fn birth_in_laws(
    m: CharacterMgr,
    f: CharacterId,
    mo: CharacterId,
    class: Set<CharacterId>,
) -> Set<CharacterId> {
    Set::new(
        |s: CharacterId|
            exists|tg: CharacterId|
                #[trigger] class.contains(tg) && m.chr(tg).has_edge(RelationType::Spouse, s)
                    && !birth_relatives(m, f, mo).contains(s),
    )
}

/// The blood-relation edges a newborn of `f` and `mo` holds.
pub open spec fn newborn_blood_edge(
    m: CharacterMgr,
    f: CharacterId,
    mo: CharacterId,
    t: RelationType,
    x: CharacterId,
) -> bool {
    ||| t == RelationType::Relative(RelativeType::GrandParent) && birth_grandparents(
        m,
        f,
        mo,
    ).contains(x)
    ||| t == RelationType::Relative(RelativeType::Cousin) && birth_cousins(m, f, mo).contains(x)
    ||| t == RelationType::Relative(RelativeType::Pibling) && birth_piblings(m, f, mo).contains(x)
    ||| t == RelationType::Relative(RelativeType::Sibling) && birth_siblings(m, f, mo).contains(x)
    ||| t == RelationType::Relative(RelativeType::Parent) && (x == f || x == mo)
}

/// The in-law edges a newborn of `f` and `mo` holds.
pub open spec fn newborn_in_law_edge(
    m: CharacterMgr,
    f: CharacterId,
    mo: CharacterId,
    t: RelationType,
    x: CharacterId,
) -> bool {
    ||| t == RelationType::InLaw(RelativeType::GrandParent) && birth_in_laws(
        m,
        f,
        mo,
        birth_grandparents(m, f, mo),
    ).contains(x)
    ||| t == RelationType::InLaw(RelativeType::Cousin) && birth_in_laws(
        m,
        f,
        mo,
        birth_cousins(m, f, mo),
    ).contains(x)
    ||| t == RelationType::InLaw(RelativeType::Pibling) && birth_in_laws(
        m,
        f,
        mo,
        birth_piblings(m, f, mo),
    ).contains(x)
    ||| t == RelationType::InLaw(RelativeType::Sibling) && birth_in_laws(
        m,
        f,
        mo,
        birth_siblings(m, f, mo),
    ).contains(x)
    ||| t == RelationType::InLaw(RelativeType::Parent) && birth_in_laws(
        m,
        f,
        mo,
        birth_parents(f, mo),
    ).contains(x)
}

/// Exactly the edges a newborn of `f` and `mo` holds, computed against the
/// state of the graph before the birth.
pub open spec fn newborn_edge(
    m: CharacterMgr,
    f: CharacterId,
    mo: CharacterId,
    t: RelationType,
    x: CharacterId,
) -> bool {
    newborn_blood_edge(m, f, mo, t, x) || newborn_in_law_edge(m, f, mo, t, x)
}

/// The blood-relation edge an existing character gains towards the newborn.
pub open spec fn family_blood_edge(
    m: CharacterMgr,
    f: CharacterId,
    mo: CharacterId,
    c: CharacterId,
    t: RelationType,
) -> bool {
    ||| t == RelationType::Relative(RelativeType::GrandChild) && birth_grandparents(
        m,
        f,
        mo,
    ).contains(c)
    ||| t == RelationType::Relative(RelativeType::Cousin) && birth_cousins(m, f, mo).contains(c)
    ||| t == RelationType::Relative(RelativeType::Nibling) && birth_piblings(m, f, mo).contains(c)
    ||| t == RelationType::Relative(RelativeType::Sibling) && birth_siblings(m, f, mo).contains(c)
    ||| t == RelationType::Relative(RelativeType::Child) && (c == f || c == mo)
}

/// The in-law edge an existing character gains towards the newborn.
pub open spec fn family_in_law_edge(
    m: CharacterMgr,
    f: CharacterId,
    mo: CharacterId,
    c: CharacterId,
    t: RelationType,
) -> bool {
    ||| t == RelationType::InLaw(RelativeType::GrandChild) && birth_in_laws(
        m,
        f,
        mo,
        birth_grandparents(m, f, mo),
    ).contains(c)
    ||| t == RelationType::InLaw(RelativeType::Cousin) && birth_in_laws(
        m,
        f,
        mo,
        birth_cousins(m, f, mo),
    ).contains(c)
    ||| t == RelationType::InLaw(RelativeType::Nibling) && birth_in_laws(
        m,
        f,
        mo,
        birth_piblings(m, f, mo),
    ).contains(c)
    ||| t == RelationType::InLaw(RelativeType::Sibling) && birth_in_laws(
        m,
        f,
        mo,
        birth_siblings(m, f, mo),
    ).contains(c)
    ||| t == RelationType::InLaw(RelativeType::Child) && birth_in_laws(
        m,
        f,
        mo,
        birth_parents(f, mo),
    ).contains(c)
}

/// Exactly the edge an existing character gains towards the newborn.
pub open spec fn family_edge_to_newborn(
    m: CharacterMgr,
    f: CharacterId,
    mo: CharacterId,
    c: CharacterId,
    t: RelationType,
) -> bool {
    family_blood_edge(m, f, mo, c, t) || family_in_law_edge(m, f, mo, c, t)
}

/// The edge targets of a well-formed store are themselves valid ids.
proof fn lemma_targets_valid(m: CharacterMgr, id: CharacterId, t: RelationType, x: CharacterId)
    requires
        m.wf(),
        m.valid(id),
        m.chr(id).has_edge(t, x),
    ensures
        x.0 < m.characters@.len(),
{
    let k = choose|k: int|
        0 <= k < m.chr(id).relations@.len() && m.chr(id).relations@[k] == (Relation {
            relation_type: t,
            id: x,
        });
    assert(m.characters@[id.0 as int].relations@[k].id.0 < m.characters@.len());
}

/// Lift the sequence-level result of one `add_relations` stage to an exact
/// edge-set description of every record.
proof fn lemma_stage_iff(
    pre: CharacterMgr,
    post: CharacterMgr,
    child: CharacterId,
    others: Seq<CharacterId>,
    rt: RelationType,
)
    requires
        pre.characters@.len() <= usize::MAX,
        post.characters@.len() == pre.characters@.len(),
        child.0 < pre.characters@.len(),
        post.chr(child).relations@ == pre.chr(child).relations@ + others.map_values(
            |o: CharacterId| Relation { relation_type: rt.spec_reverse(), id: o },
        ),
        forall|k: int|
            0 <= k < others.len() ==> (#[trigger] post.chr(others[k])).relations@ == pre.chr(
                others[k],
            ).relations@.push(Relation { relation_type: rt, id: child }),
        forall|i: int|
            0 <= i < pre.characters@.len() && i != child.0 && !others.contains(
                CharacterId(i as usize),
            ) ==> (#[trigger] post.characters@[i]).relations == pre.characters@[i].relations,
        !others.contains(child),
        forall|k: int| 0 <= k < others.len() ==> (#[trigger] others[k]).0 < pre.characters@.len(),
    ensures
        forall|t: RelationType, x: CharacterId|
            #[trigger] post.chr(child).has_edge(t, x) <==> pre.chr(child).has_edge(t, x) || (t
                == rt.spec_reverse() && others.contains(x)),
        forall|i: int, t: RelationType, x: CharacterId|
            0 <= i < pre.characters@.len() && i != child.0 ==> (#[trigger] post.characters@[i]
                .has_edge(t, x) <==> pre.characters@[i].has_edge(t, x) || (t == rt && x == child
                && others.contains(CharacterId(i as usize)))),
{
    let mapped = others.map_values(
        |o: CharacterId| Relation { relation_type: rt.spec_reverse(), id: o },
    );
    assert forall|t: RelationType, x: CharacterId|
        #[trigger] post.chr(child).has_edge(t, x) <==> pre.chr(child).has_edge(t, x) || (t
            == rt.spec_reverse() && others.contains(x)) by {
        let o = pre.chr(child).relations@;
        let n = post.chr(child).relations@;
        if post.chr(child).has_edge(t, x) {
            let j = choose|j: int|
                0 <= j < n.len() && n[j] == (Relation { relation_type: t, id: x });
            if j < o.len() {
                assert(o[j] == (Relation { relation_type: t, id: x }));
                assert(pre.chr(child).has_edge(t, x));
            } else {
                assert(n[j] == mapped[j - o.len()]);
                assert(mapped[j - o.len()] == (Relation {
                    relation_type: rt.spec_reverse(),
                    id: others[j - o.len()],
                }));
                assert(others.contains(others[j - o.len()]));
            }
        }
        if pre.chr(child).has_edge(t, x) {
            let j = choose|j: int|
                0 <= j < o.len() && o[j] == (Relation { relation_type: t, id: x });
            assert(n[j] == o[j]);
            assert(post.chr(child).has_edge(t, x));
        }
        if t == rt.spec_reverse() && others.contains(x) {
            let k = choose|k: int| 0 <= k < others.len() && others[k] == x;
            assert(mapped[k] == (Relation { relation_type: t, id: x }));
            assert(n[o.len() + k] == (Relation { relation_type: t, id: x }));
            assert(post.chr(child).has_edge(t, x));
        }
    }
    assert forall|i: int, t: RelationType, x: CharacterId|
        0 <= i < pre.characters@.len() && i != child.0 implies (#[trigger] post.characters@[i]
        .has_edge(t, x) <==> pre.characters@[i].has_edge(t, x) || (t == rt && x == child
        && others.contains(CharacterId(i as usize)))) by {
        let c = CharacterId(i as usize);
        if others.contains(c) {
            let k = choose|k: int| 0 <= k < others.len() && others[k] == c;
            assert(post.chr(others[k]).relations@ == pre.chr(others[k]).relations@.push(
                Relation { relation_type: rt, id: child },
            ));
            assert(c.0 == i);
            assert(post.chr(c) == post.characters@[i]);
            assert(pre.chr(c) == pre.characters@[i]);
            let o = pre.characters@[i].relations@;
            let n = post.characters@[i].relations@;
            assert(n == o.push(Relation { relation_type: rt, id: child }));
            if post.characters@[i].has_edge(t, x) {
                let j = choose|j: int|
                    0 <= j < n.len() && n[j] == (Relation { relation_type: t, id: x });
                if j < o.len() {
                    assert(pre.characters@[i].has_edge(t, x));
                } else {
                    assert(t == rt && x == child);
                }
            }
            if pre.characters@[i].has_edge(t, x) {
                let j = choose|j: int|
                    0 <= j < o.len() && o[j] == (Relation { relation_type: t, id: x });
                assert(n[j] == o[j]);
            }
            if t == rt && x == child {
                assert(n[o.len() as int] == (Relation { relation_type: t, id: x }));
            }
        } else {
            assert(post.characters@[i].relations == pre.characters@[i].relations);
        }
    }
}


/// A record untouched between two states yields the same direct lookups.
proof fn lemma_rel_ids_unchanged(m0: CharacterMgr, m1: CharacterMgr, id: CharacterId)
    requires
        id.0 < m0.characters@.len(),
        id.0 < m1.characters@.len(),
        m1.characters@[id.0 as int] == m0.characters@[id.0 as int],
    ensures
        forall|t: RelationType| rel_ids(m1, id, t) == rel_ids(m0, id, t),
{
    assert forall|t: RelationType| rel_ids(m1, id, t) == rel_ids(m0, id, t) by {
        assert(rel_ids(m1, id, t) =~= rel_ids(m0, id, t));
    }
}

/// Append the members of `more` that are not yet in `acc`, in order.
fn extend_unique(acc: &mut Vec<CharacterId>, more: &Vec<CharacterId>)
    requires
        old(acc)@.no_duplicates(),
    ensures
        final(acc)@.no_duplicates(),
        forall|x: CharacterId| #[trigger] final(acc)@.contains(x) <==> old(acc)@.contains(x)
            || more@.contains(x),
{
    broadcast use vstd::seq_lib::lemma_seq_contains_after_push;

    let n = more.len();
    let mut i: usize = 0;
    while i < n
        invariant
            i <= n,
            n == more@.len(),
            acc@.no_duplicates(),
            forall|x: CharacterId| #[trigger] acc@.contains(x) <==> old(acc)@.contains(x)
                || more@.take(i as int).contains(x),
        decreases n - i,
    {
        let x = more[i];
        let ghost acc0 = acc@;
        let already = contains_id(acc, x);
        if !already {
            acc.push(x);
        }
        proof {
            if !already {
                assert forall|y: CharacterId| #[trigger] acc@.contains(y) <==> (y == x
                    || acc0.contains(y)) by {
                    vstd::seq_lib::lemma_seq_contains_after_push(acc0, x, y);
                }
            }
            assert(acc@.contains(x));
            assert forall|y: CharacterId| #[trigger] acc@.contains(y) <==> old(acc)@.contains(y)
                || more@.take(i + 1).contains(y) by {
                assert(more@.take(i + 1) =~= more@.take(i as int).push(more@[i as int]));
                vstd::seq_lib::lemma_seq_contains_after_push(
                    more@.take(i as int),
                    more@[i as int],
                    y,
                );
                assert(more@.take(i + 1).contains(y) <==> more@.take(i as int).contains(y) || y
                    == x);
            }
        }
        i = i + 1;
    }
    proof {
        assert(more@.take(n as int) =~= more@);
    }
}

/// The family classes derived from a couple, computed in one pass: the id
/// lists a newborn of the couple is tied to, and the union of all of them,
/// which serves as the exclusion list for in-law edges.
pub struct FamilyClasses {
    pub siblings: Vec<CharacterId>,
    pub grandparents: Vec<CharacterId>,
    pub piblings: Vec<CharacterId>,
    pub cousins: Vec<CharacterId>,
    pub relatives: Vec<CharacterId>,
}

/// Derive the family classes of a prospective newborn of the couple from the
/// current graph: shared children, parents-of-parents, siblings-of-parents,
/// and children-of-piblings.
pub fn compute_family_classes(
    manager: &CharacterMgr,
    father: CharacterId,
    mother: CharacterId,
) -> (r: FamilyClasses)
    requires
        manager.wf(),
        manager.valid(father),
        manager.valid(mother),
        father != mother,
    ensures
        r.siblings@.no_duplicates(),
        r.grandparents@.no_duplicates(),
        r.piblings@.no_duplicates(),
        r.cousins@.no_duplicates(),
        forall|x: CharacterId| #[trigger] r.siblings@.contains(x) <==> birth_siblings(
            *manager,
            father,
            mother,
        ).contains(x),
        forall|x: CharacterId| #[trigger] r.grandparents@.contains(x) <==> birth_grandparents(
            *manager,
            father,
            mother,
        ).contains(x),
        forall|x: CharacterId| #[trigger] r.piblings@.contains(x) <==> birth_piblings(
            *manager,
            father,
            mother,
        ).contains(x),
        forall|x: CharacterId| #[trigger] r.cousins@.contains(x) <==> birth_cousins(
            *manager,
            father,
            mother,
        ).contains(x),
        forall|x: CharacterId| #[trigger] r.relatives@.contains(x) <==> birth_relatives(
            *manager,
            father,
            mother,
        ).contains(x),
        forall|k: int|
            0 <= k < r.siblings@.len() ==> (#[trigger] r.siblings@[k]).0
                < manager.characters@.len(),
        forall|k: int|
            0 <= k < r.grandparents@.len() ==> (#[trigger] r.grandparents@[k]).0
                < manager.characters@.len(),
        forall|k: int|
            0 <= k < r.piblings@.len() ==> (#[trigger] r.piblings@[k]).0
                < manager.characters@.len(),
        forall|k: int|
            0 <= k < r.cousins@.len() ==> (#[trigger] r.cousins@[k]).0
                < manager.characters@.len(),
{
    let ghost m0 = *manager;
    let mut parents_vec: Vec<CharacterId> = Vec::new();
    parents_vec.push(father);
    parents_vec.push(mother);
    proof {
        assert(parents_vec@ =~= seq![father, mother]);
        assert forall|x: CharacterId| #[trigger] parents_vec@.contains(x) <==> (x == father || x
            == mother) by {
            if parents_vec@.contains(x) {
                let k = choose|k: int| 0 <= k < parents_vec@.len() && parents_vec@[k] == x;
            }
            if x == father {
                assert(parents_vec@[0] == x);
            }
            if x == mother {
                assert(parents_vec@[1] == x);
            }
        }
    }
    let siblings = get_shared_children(manager, father, mother);
    let mr: &CharacterMgr = manager;
    let parents_query = |id: CharacterId| -> (out: Vec<CharacterId>)
        ensures
            out@.no_duplicates(),
            forall|x: CharacterId| #[trigger] out@.contains(x) <==> rel_ids(
                *mr,
                id,
                RelationType::Relative(RelativeType::Parent),
            ).contains(x),
        { get_parents(mr, id) };
    let grandparents = combine(&parents_vec, parents_query);
    let siblings_query = |id: CharacterId| -> (out: Vec<CharacterId>)
        ensures
            out@.no_duplicates(),
            forall|x: CharacterId| #[trigger] out@.contains(x) <==> rel_ids(
                *mr,
                id,
                RelationType::Relative(RelativeType::Sibling),
            ).contains(x),
        { get_direct_relation(mr, id, RelationType::Relative(RelativeType::Sibling)) };
    let piblings = combine(&parents_vec, siblings_query);
    let children_query = |id: CharacterId| -> (out: Vec<CharacterId>)
        ensures
            out@.no_duplicates(),
            forall|x: CharacterId| #[trigger] out@.contains(x) <==> rel_ids(
                *mr,
                id,
                RelationType::Relative(RelativeType::Child),
            ).contains(x),
        { get_children(mr, id) };
    let cousins = combine(&piblings, children_query);
    proof {
        // tie each computed list to its class set
        assert forall|x: CharacterId| #[trigger] grandparents@.contains(x)
            <==> birth_grandparents(m0, father, mother).contains(x) by {
            let outs = choose|outs: Seq<Vec<CharacterId>>|
                #![trigger outs.len()]
                {
                    &&& outs.len() == parents_vec@.len()
                    &&& forall|i: int|
                        0 <= i < outs.len() ==> call_ensures(
                            parents_query,
                            (parents_vec@[i],),
                            #[trigger] outs[i],
                        )
                    &&& forall|y: CharacterId| #[trigger] grandparents@.contains(y) <==> exists|
                        i: int,
                    |
                        0 <= i < outs.len() && (#[trigger] outs[i])@.contains(y)
                };
            if grandparents@.contains(x) {
                let i = choose|i: int| 0 <= i < outs.len() && (#[trigger] outs[i])@.contains(x);
                assert(rel_ids(m0, parents_vec@[i], RelationType::Relative(
                    RelativeType::Parent,
                )).contains(x));
                assert(parents_vec@[i] == father || parents_vec@[i] == mother);
            }
            if birth_grandparents(m0, father, mother).contains(x) {
                if rel_ids(m0, father, RelationType::Relative(RelativeType::Parent)).contains(
                    x,
                ) {
                    assert(outs[0]@.contains(x));
                } else {
                    assert(outs[1]@.contains(x));
                }
            }
        }
        assert forall|x: CharacterId| #[trigger] piblings@.contains(x) <==> birth_piblings(
            m0,
            father,
            mother,
        ).contains(x) by {
            let outs = choose|outs: Seq<Vec<CharacterId>>|
                #![trigger outs.len()]
                {
                    &&& outs.len() == parents_vec@.len()
                    &&& forall|i: int|
                        0 <= i < outs.len() ==> call_ensures(
                            siblings_query,
                            (parents_vec@[i],),
                            #[trigger] outs[i],
                        )
                    &&& forall|y: CharacterId| #[trigger] piblings@.contains(y) <==> exists|
                        i: int,
                    |
                        0 <= i < outs.len() && (#[trigger] outs[i])@.contains(y)
                };
            if piblings@.contains(x) {
                let i = choose|i: int| 0 <= i < outs.len() && (#[trigger] outs[i])@.contains(x);
                assert(rel_ids(m0, parents_vec@[i], RelationType::Relative(
                    RelativeType::Sibling,
                )).contains(x));
                assert(parents_vec@[i] == father || parents_vec@[i] == mother);
            }
            if birth_piblings(m0, father, mother).contains(x) {
                if rel_ids(m0, father, RelationType::Relative(RelativeType::Sibling)).contains(
                    x,
                ) {
                    assert(outs[0]@.contains(x));
                } else {
                    assert(outs[1]@.contains(x));
                }
            }
        }
        assert forall|x: CharacterId| #[trigger] cousins@.contains(x) <==> birth_cousins(
            m0,
            father,
            mother,
        ).contains(x) by {
            let outs = choose|outs: Seq<Vec<CharacterId>>|
                #![trigger outs.len()]
                {
                    &&& outs.len() == piblings@.len()
                    &&& forall|i: int|
                        0 <= i < outs.len() ==> call_ensures(
                            children_query,
                            (piblings@[i],),
                            #[trigger] outs[i],
                        )
                    &&& forall|y: CharacterId| #[trigger] cousins@.contains(y) <==> exists|i: int|
                        0 <= i < outs.len() && (#[trigger] outs[i])@.contains(y)
                };
            if cousins@.contains(x) {
                let i = choose|i: int| 0 <= i < outs.len() && (#[trigger] outs[i])@.contains(x);
                assert(rel_ids(m0, piblings@[i], RelationType::Relative(
                    RelativeType::Child,
                )).contains(x));
                assert(piblings@.contains(piblings@[i]));
                assert(birth_piblings(m0, father, mother).contains(piblings@[i]));
            }
            if birth_cousins(m0, father, mother).contains(x) {
                let p = choose|p: CharacterId|
                    birth_piblings(m0, father, mother).contains(p) && rel_ids(
                        m0,
                        p,
                        RelationType::Relative(RelativeType::Child),
                    ).contains(x);
                assert(piblings@.contains(p));
                let i = choose|i: int| 0 <= i < piblings@.len() && piblings@[i] == p;
                assert(outs[i]@.contains(x));
            }
        }
        // class members carry valid ids, because the store is well-formed
        assert forall|x: CharacterId| #[trigger] grandparents@.contains(x) implies x.0
            < m0.spec_len() by {
            if rel_ids(m0, father, RelationType::Relative(RelativeType::Parent)).contains(x) {
                lemma_targets_valid(m0, father, RelationType::Relative(RelativeType::Parent), x);
            } else {
                lemma_targets_valid(m0, mother, RelationType::Relative(RelativeType::Parent), x);
            }
        }
        assert forall|x: CharacterId| #[trigger] piblings@.contains(x) implies x.0
            < m0.spec_len() by {
            if rel_ids(m0, father, RelationType::Relative(RelativeType::Sibling)).contains(x) {
                lemma_targets_valid(m0, father, RelationType::Relative(RelativeType::Sibling), x);
            } else {
                lemma_targets_valid(m0, mother, RelationType::Relative(RelativeType::Sibling), x);
            }
        }
        assert forall|x: CharacterId| #[trigger] siblings@.contains(x) implies x.0
            < m0.spec_len() by {
            lemma_targets_valid(m0, father, RelationType::Relative(RelativeType::Child), x);
        }
        assert forall|x: CharacterId| #[trigger] cousins@.contains(x) implies x.0
            < m0.spec_len() by {
            let p = choose|p: CharacterId|
                birth_piblings(m0, father, mother).contains(p) && rel_ids(
                    m0,
                    p,
                    RelationType::Relative(RelativeType::Child),
                ).contains(x);
            assert(piblings@.contains(p));
            lemma_targets_valid(m0, p, RelationType::Relative(RelativeType::Child), x);
        }
        assert forall|k: int| 0 <= k < grandparents@.len() implies (#[trigger] grandparents@[k]).0
            < m0.spec_len() by {
            assert(grandparents@.contains(grandparents@[k]));
        }
        assert forall|k: int| 0 <= k < cousins@.len() implies (#[trigger] cousins@[k]).0
            < m0.spec_len() by {
            assert(cousins@.contains(cousins@[k]));
        }
        assert forall|k: int| 0 <= k < piblings@.len() implies (#[trigger] piblings@[k]).0
            < m0.spec_len() by {
            assert(piblings@.contains(piblings@[k]));
        }
        assert forall|k: int| 0 <= k < siblings@.len() implies (#[trigger] siblings@[k]).0
            < m0.spec_len() by {
            assert(siblings@.contains(siblings@[k]));
        }
    }
    let mut relatives: Vec<CharacterId> = Vec::new();
    extend_unique(&mut relatives, &parents_vec);
    extend_unique(&mut relatives, &siblings);
    extend_unique(&mut relatives, &grandparents);
    extend_unique(&mut relatives, &piblings);
    extend_unique(&mut relatives, &cousins);
    proof {
        assert forall|x: CharacterId| #[trigger] relatives@.contains(x) <==> birth_relatives(
            m0,
            father,
            mother,
        ).contains(x) by {
            assert(birth_relatives(m0, father, mother).contains(x) == (birth_siblings(
                m0,
                father,
                mother,
            ).contains(x) || birth_grandparents(m0, father, mother).contains(x)
                || birth_piblings(m0, father, mother).contains(x) || birth_cousins(
                m0,
                father,
                mother,
            ).contains(x) || x == father || x == mother));
        }
    }
    FamilyClasses { siblings, grandparents, piblings, cousins, relatives }
}

/// Add the symmetric blood-relation edges between the newborn and every
/// member of the five family classes, class by class.
#[verifier::rlimit(100)]
#[verifier::spinoff_prover]
fn tie_blood_relations(
    manager: &mut CharacterMgr,
    child: CharacterId,
    classes: &FamilyClasses,
    father: CharacterId,
    mother: CharacterId,
    Ghost(m0): Ghost<CharacterMgr>,
)
    requires
        old(manager).wf(),
        child.0 == m0.spec_len(),
        old(manager).spec_len() == m0.spec_len() + 1,
        m0.spec_len() < usize::MAX,
        forall|i: int|
            0 <= i < m0.spec_len() ==> #[trigger] old(manager).characters@[i]
                == m0.characters@[i],
        old(manager).chr(child).relations@.len() == 0,
        father.0 < m0.spec_len(),
        mother.0 < m0.spec_len(),
        father != mother,
        classes.siblings@.no_duplicates(),
        classes.grandparents@.no_duplicates(),
        classes.piblings@.no_duplicates(),
        classes.cousins@.no_duplicates(),
        forall|x: CharacterId| #[trigger] classes.siblings@.contains(x) <==> birth_siblings(
            m0,
            father,
            mother,
        ).contains(x),
        forall|x: CharacterId| #[trigger] classes.grandparents@.contains(x)
            <==> birth_grandparents(m0, father, mother).contains(x),
        forall|x: CharacterId| #[trigger] classes.piblings@.contains(x) <==> birth_piblings(
            m0,
            father,
            mother,
        ).contains(x),
        forall|x: CharacterId| #[trigger] classes.cousins@.contains(x) <==> birth_cousins(
            m0,
            father,
            mother,
        ).contains(x),
        forall|k: int|
            0 <= k < classes.siblings@.len() ==> (#[trigger] classes.siblings@[k]).0
                < m0.spec_len(),
        forall|k: int|
            0 <= k < classes.grandparents@.len() ==> (#[trigger] classes.grandparents@[k]).0
                < m0.spec_len(),
        forall|k: int|
            0 <= k < classes.piblings@.len() ==> (#[trigger] classes.piblings@[k]).0
                < m0.spec_len(),
        forall|k: int|
            0 <= k < classes.cousins@.len() ==> (#[trigger] classes.cousins@[k]).0
                < m0.spec_len(),
    ensures
        final(manager).wf(),
        final(manager).characters@.len() == old(manager).characters@.len(),
        forall|i: int|
            0 <= i < old(manager).characters@.len() ==> same_but_relations(
                old(manager).characters@[i],
                #[trigger] final(manager).characters@[i],
            ),
        forall|t: RelationType, x: CharacterId|
            #[trigger] final(manager).chr(child).has_edge(t, x) <==> newborn_blood_edge(
                m0,
                father,
                mother,
                t,
                x,
            ),
        forall|i: int, t: RelationType, x: CharacterId|
            0 <= i < m0.spec_len() ==> (#[trigger] final(manager).characters@[i].has_edge(t, x)
                <==> m0.characters@[i].has_edge(t, x) || (x == child && family_blood_edge(
                m0,
                father,
                mother,
                CharacterId(i as usize),
                t,
            ))),
{
    let ghost m1 = *old(manager);
    let mut parents_vec: Vec<CharacterId> = Vec::new();
    parents_vec.push(father);
    parents_vec.push(mother);
    proof {
        assert(parents_vec@ =~= seq![father, mother]);
        assert forall|x: CharacterId| #[trigger] parents_vec@.contains(x) <==> (x == father || x
            == mother) by {
            if parents_vec@.contains(x) {
                let k = choose|k: int| 0 <= k < parents_vec@.len() && parents_vec@[k] == x;
            }
            if x == father {
                assert(parents_vec@[0] == x);
            }
            if x == mother {
                assert(parents_vec@[1] == x);
            }
        }
        assert(!classes.grandparents@.contains(child));
        assert(!classes.cousins@.contains(child));
        assert(!classes.piblings@.contains(child));
        assert(!classes.siblings@.contains(child));
        assert(!parents_vec@.contains(child));
    }
    let ghost g1 = *manager;
    add_relations(
        manager,
        child,
        &classes.grandparents,
        RelationType::Relative(RelativeType::GrandChild),
    );
    let ghost g2 = *manager;
    proof {
        lemma_stage_iff(
            g1,
            g2,
            child,
            classes.grandparents@,
            RelationType::Relative(RelativeType::GrandChild),
        );
    }
    add_relations(manager, child, &classes.cousins, RelationType::Relative(RelativeType::Cousin));
    let ghost g3 = *manager;
    proof {
        lemma_stage_iff(
            g2,
            g3,
            child,
            classes.cousins@,
            RelationType::Relative(RelativeType::Cousin),
        );
    }
    add_relations(
        manager,
        child,
        &classes.piblings,
        RelationType::Relative(RelativeType::Nibling),
    );
    let ghost g4 = *manager;
    proof {
        lemma_stage_iff(
            g3,
            g4,
            child,
            classes.piblings@,
            RelationType::Relative(RelativeType::Nibling),
        );
    }
    add_relations(
        manager,
        child,
        &classes.siblings,
        RelationType::Relative(RelativeType::Sibling),
    );
    let ghost g5 = *manager;
    proof {
        lemma_stage_iff(
            g4,
            g5,
            child,
            classes.siblings@,
            RelationType::Relative(RelativeType::Sibling),
        );
    }
    add_relations(manager, child, &parents_vec, RelationType::Relative(RelativeType::Child));
    let ghost g6 = *manager;
    proof {
        lemma_stage_iff(
            g5,
            g6,
            child,
            parents_vec@,
            RelationType::Relative(RelativeType::Child),
        );
        assert forall|t: RelationType, x: CharacterId|
            #[trigger] g6.chr(child).has_edge(t, x) <==> newborn_blood_edge(
            m0,
            father,
            mother,
            t,
            x,
        ) by {
            assert(!m1.chr(child).has_edge(t, x));
        }
        assert forall|i: int, t: RelationType, x: CharacterId|
            0 <= i < m0.spec_len() implies (#[trigger] g6.characters@[i].has_edge(t, x) <==> m0
            .characters@[i].has_edge(t, x) || (x == child && family_blood_edge(
            m0,
            father,
            mother,
            CharacterId(i as usize),
            t,
        ))) by {
            assert(m1.characters@[i] == m0.characters@[i]);
            assert(i != child.0);
        }
    }
}

/// Add the symmetric in-law edges between the newborn and the spouses of
/// every class member that is not itself a blood relative, class by class.
fn tie_in_laws(
    manager: &mut CharacterMgr,
    child: CharacterId,
    classes: &FamilyClasses,
    father: CharacterId,
    mother: CharacterId,
    Ghost(m0): Ghost<CharacterMgr>,
)
    requires
        old(manager).wf(),
        child.0 == m0.spec_len(),
        old(manager).spec_len() == m0.spec_len() + 1,
        m0.spec_len() < usize::MAX,
        father.0 < m0.spec_len(),
        mother.0 < m0.spec_len(),
        father != mother,
        forall|x: CharacterId| #[trigger] classes.siblings@.contains(x) <==> birth_siblings(
            m0,
            father,
            mother,
        ).contains(x),
        forall|x: CharacterId| #[trigger] classes.grandparents@.contains(x)
            <==> birth_grandparents(m0, father, mother).contains(x),
        forall|x: CharacterId| #[trigger] classes.piblings@.contains(x) <==> birth_piblings(
            m0,
            father,
            mother,
        ).contains(x),
        forall|x: CharacterId| #[trigger] classes.cousins@.contains(x) <==> birth_cousins(
            m0,
            father,
            mother,
        ).contains(x),
        forall|x: CharacterId| #[trigger] classes.relatives@.contains(x) <==> birth_relatives(
            m0,
            father,
            mother,
        ).contains(x),
        forall|k: int|
            0 <= k < classes.siblings@.len() ==> (#[trigger] classes.siblings@[k]).0
                < m0.spec_len(),
        forall|k: int|
            0 <= k < classes.grandparents@.len() ==> (#[trigger] classes.grandparents@[k]).0
                < m0.spec_len(),
        forall|k: int|
            0 <= k < classes.piblings@.len() ==> (#[trigger] classes.piblings@[k]).0
                < m0.spec_len(),
        forall|k: int|
            0 <= k < classes.cousins@.len() ==> (#[trigger] classes.cousins@[k]).0
                < m0.spec_len(),
        forall|t: RelationType, x: CharacterId|
            #[trigger] old(manager).chr(child).has_edge(t, x) <==> newborn_blood_edge(
                m0,
                father,
                mother,
                t,
                x,
            ),
        forall|i: int, t: RelationType, x: CharacterId|
            0 <= i < m0.spec_len() ==> (#[trigger] old(manager).characters@[i].has_edge(t, x)
                <==> m0.characters@[i].has_edge(t, x) || (x == child && family_blood_edge(
                m0,
                father,
                mother,
                CharacterId(i as usize),
                t,
            ))),
    ensures
        final(manager).wf(),
        final(manager).characters@.len() == old(manager).characters@.len(),
        forall|i: int|
            0 <= i < old(manager).characters@.len() ==> same_but_relations(
                old(manager).characters@[i],
                #[trigger] final(manager).characters@[i],
            ),
        forall|t: RelationType, x: CharacterId|
            #[trigger] final(manager).chr(child).has_edge(t, x) <==> newborn_edge(
                m0,
                father,
                mother,
                t,
                x,
            ),
        forall|i: int, t: RelationType, x: CharacterId|
            0 <= i < m0.spec_len() ==> (#[trigger] final(manager).characters@[i].has_edge(t, x)
                <==> m0.characters@[i].has_edge(t, x) || (x == child && family_edge_to_newborn(
                m0,
                father,
                mother,
                CharacterId(i as usize),
                t,
            ))),
{
    let ghost g6 = *old(manager);
    let mut parents_vec: Vec<CharacterId> = Vec::new();
    parents_vec.push(father);
    parents_vec.push(mother);
    proof {
        assert(parents_vec@ =~= seq![father, mother]);
        assert forall|x: CharacterId| #[trigger] parents_vec@.contains(x) <==> birth_parents(
            father,
            mother,
        ).contains(x) by {
            if parents_vec@.contains(x) {
                let k = choose|k: int| 0 <= k < parents_vec@.len() && parents_vec@[k] == x;
            }
            if x == father {
                assert(parents_vec@[0] == x);
            }
            if x == mother {
                assert(parents_vec@[1] == x);
            }
        }
        assert(forall|x: CharacterId| !g6.chr(child).has_edge(RelationType::Spouse, x));
        assert forall|i: int, x: CharacterId|
            0 <= i < m0.spec_len() implies (#[trigger] g6.characters@[i].has_edge(
            RelationType::Spouse,
            x,
        ) <==> m0.characters@[i].has_edge(RelationType::Spouse, x)) by {}
    }
    add_in_laws(
        manager,
        child,
        &classes.grandparents,
        &classes.relatives,
        RelativeType::GrandChild,
    );
    let ghost g7 = *manager;
    proof {
        lemma_in_law_targets_eq(
            m0,
            father,
            mother,
            g6,
            classes.grandparents@,
            birth_grandparents(m0, father, mother),
            classes.relatives@,
        );
        assert forall|i: int, x: CharacterId|
            0 <= i < m0.spec_len() implies (#[trigger] g7.characters@[i].has_edge(
            RelationType::Spouse,
            x,
        ) <==> m0.characters@[i].has_edge(RelationType::Spouse, x)) by {
            assert(i != child.0);
        }
        assert(forall|x: CharacterId| !g7.chr(child).has_edge(RelationType::Spouse, x));
    }
    add_in_laws(manager, child, &classes.cousins, &classes.relatives, RelativeType::Cousin);
    let ghost g8 = *manager;
    proof {
        lemma_in_law_targets_eq(
            m0,
            father,
            mother,
            g7,
            classes.cousins@,
            birth_cousins(m0, father, mother),
            classes.relatives@,
        );
        assert forall|i: int, x: CharacterId|
            0 <= i < m0.spec_len() implies (#[trigger] g8.characters@[i].has_edge(
            RelationType::Spouse,
            x,
        ) <==> m0.characters@[i].has_edge(RelationType::Spouse, x)) by {
            assert(i != child.0);
        }
        assert(forall|x: CharacterId| !g8.chr(child).has_edge(RelationType::Spouse, x));
    }
    add_in_laws(manager, child, &classes.piblings, &classes.relatives, RelativeType::Nibling);
    let ghost g9 = *manager;
    proof {
        lemma_in_law_targets_eq(
            m0,
            father,
            mother,
            g8,
            classes.piblings@,
            birth_piblings(m0, father, mother),
            classes.relatives@,
        );
        assert forall|i: int, x: CharacterId|
            0 <= i < m0.spec_len() implies (#[trigger] g9.characters@[i].has_edge(
            RelationType::Spouse,
            x,
        ) <==> m0.characters@[i].has_edge(RelationType::Spouse, x)) by {
            assert(i != child.0);
        }
        assert(forall|x: CharacterId| !g9.chr(child).has_edge(RelationType::Spouse, x));
    }
    add_in_laws(manager, child, &classes.siblings, &classes.relatives, RelativeType::Sibling);
    let ghost g10 = *manager;
    proof {
        lemma_in_law_targets_eq(
            m0,
            father,
            mother,
            g9,
            classes.siblings@,
            birth_siblings(m0, father, mother),
            classes.relatives@,
        );
        assert forall|i: int, x: CharacterId|
            0 <= i < m0.spec_len() implies (#[trigger] g10.characters@[i].has_edge(
            RelationType::Spouse,
            x,
        ) <==> m0.characters@[i].has_edge(RelationType::Spouse, x)) by {
            assert(i != child.0);
        }
        assert(forall|x: CharacterId| !g10.chr(child).has_edge(RelationType::Spouse, x));
    }
    add_in_laws(manager, child, &parents_vec, &classes.relatives, RelativeType::Child);
    let ghost g11 = *manager;
    proof {
        lemma_in_law_targets_eq(
            m0,
            father,
            mother,
            g10,
            parents_vec@,
            birth_parents(father, mother),
            classes.relatives@,
        );
        assert forall|t: RelationType, x: CharacterId|
            #[trigger] g11.chr(child).has_edge(t, x) <==> newborn_edge(
            m0,
            father,
            mother,
            t,
            x,
        ) by {
            assert(g7.chr(child).has_edge(t, x) <==> g6.chr(child).has_edge(t, x) || (t
                == RelationType::InLaw(RelativeType::GrandParent) && birth_in_laws(
                m0,
                father,
                mother,
                birth_grandparents(m0, father, mother),
            ).contains(x)));
            assert(g8.chr(child).has_edge(t, x) <==> g7.chr(child).has_edge(t, x) || (t
                == RelationType::InLaw(RelativeType::Cousin) && birth_in_laws(
                m0,
                father,
                mother,
                birth_cousins(m0, father, mother),
            ).contains(x)));
            assert(g9.chr(child).has_edge(t, x) <==> g8.chr(child).has_edge(t, x) || (t
                == RelationType::InLaw(RelativeType::Pibling) && birth_in_laws(
                m0,
                father,
                mother,
                birth_piblings(m0, father, mother),
            ).contains(x)));
            assert(g10.chr(child).has_edge(t, x) <==> g9.chr(child).has_edge(t, x) || (t
                == RelationType::InLaw(RelativeType::Sibling) && birth_in_laws(
                m0,
                father,
                mother,
                birth_siblings(m0, father, mother),
            ).contains(x)));
            assert(g11.chr(child).has_edge(t, x) <==> g10.chr(child).has_edge(t, x) || (t
                == RelationType::InLaw(RelativeType::Parent) && birth_in_laws(
                m0,
                father,
                mother,
                birth_parents(father, mother),
            ).contains(x)));
        }
        assert forall|i: int, t: RelationType, x: CharacterId|
            0 <= i < m0.spec_len() implies (#[trigger] g11.characters@[i].has_edge(t, x) <==> m0
            .characters@[i].has_edge(t, x) || (x == child && family_edge_to_newborn(
            m0,
            father,
            mother,
            CharacterId(i as usize),
            t,
        ))) by {
            assert(i != child.0);
            let c = CharacterId(i as usize);
            assert(g7.characters@[i].has_edge(t, x) <==> g6.characters@[i].has_edge(t, x) || (x
                == child && t == RelationType::InLaw(RelativeType::GrandChild) && birth_in_laws(
                m0,
                father,
                mother,
                birth_grandparents(m0, father, mother),
            ).contains(c)));
            assert(g8.characters@[i].has_edge(t, x) <==> g7.characters@[i].has_edge(t, x) || (x
                == child && t == RelationType::InLaw(RelativeType::Cousin) && birth_in_laws(
                m0,
                father,
                mother,
                birth_cousins(m0, father, mother),
            ).contains(c)));
            assert(g9.characters@[i].has_edge(t, x) <==> g8.characters@[i].has_edge(t, x) || (x
                == child && t == RelationType::InLaw(RelativeType::Nibling) && birth_in_laws(
                m0,
                father,
                mother,
                birth_piblings(m0, father, mother),
            ).contains(c)));
            assert(g10.characters@[i].has_edge(t, x) <==> g9.characters@[i].has_edge(t, x) || (x
                == child && t == RelationType::InLaw(RelativeType::Sibling) && birth_in_laws(
                m0,
                father,
                mother,
                birth_siblings(m0, father, mother),
            ).contains(c)));
            assert(g11.characters@[i].has_edge(t, x) <==> g10.characters@[i].has_edge(t, x) || (
            x == child && t == RelationType::InLaw(RelativeType::Child) && birth_in_laws(
                m0,
                father,
                mother,
                birth_parents(father, mother),
            ).contains(c)));
        }
        assert forall|i: int|
            0 <= i < g6.characters@.len() implies same_but_relations(
            g6.characters@[i],
            #[trigger] g11.characters@[i],
        ) by {
            assert(same_but_relations(g6.characters@[i], g7.characters@[i]));
            assert(same_but_relations(g7.characters@[i], g8.characters@[i]));
            assert(same_but_relations(g8.characters@[i], g9.characters@[i]));
            assert(same_but_relations(g9.characters@[i], g10.characters@[i]));
            assert(same_but_relations(g10.characters@[i], g11.characters@[i]));
        }
    }
}

/// Create a new character as the child of the two given characters, and tie
/// it with symmetric edges to its whole family: its parents, the classes of
/// blood relatives derived from them, and, as in-laws, the spouses of those
/// relatives that are not themselves blood relatives. All classes are
/// computed against the graph as it stood before this birth.
pub fn birth_with_relations(
    manager: &mut CharacterMgr,
    father: CharacterId,
    mother: CharacterId,
) -> (child: CharacterId)
    requires
        old(manager).wf(),
        old(manager).valid(father),
        old(manager).valid(mother),
        // a birth involves two existing characters, so the parents differ
        father != mother,
        old(manager).spec_len() < usize::MAX,
    ensures
        final(manager).wf(),
        child.0 == old(manager).spec_len(),
        final(manager).characters@.len() == old(manager).characters@.len() + 1,
        forall|i: int|
            0 <= i < old(manager).characters@.len() ==> same_but_relations(
                old(manager).characters@[i],
                #[trigger] final(manager).characters@[i],
            ),
        final(manager).chr(child).id == child,
        final(manager).chr(child).spec_is_alive(),
        final(manager).chr(child).birth_date.0 == 0,
        final(manager).chr(child).building_relations@.len() == 0,
        forall|t: RelationType, x: CharacterId|
            #[trigger] final(manager).chr(child).has_edge(t, x) <==> newborn_edge(
                *old(manager),
                father,
                mother,
                t,
                x,
            ),
        forall|i: int, t: RelationType, x: CharacterId|
            0 <= i < old(manager).characters@.len() ==> (#[trigger] final(manager).characters@[i]
                .has_edge(t, x) <==> old(manager).characters@[i].has_edge(t, x) || (x == child
                && family_edge_to_newborn(
                *old(manager),
                father,
                mother,
                CharacterId(i as usize),
                t,
            ))),
{
    let ghost m0 = *old(manager);
    let classes = compute_family_classes(manager, father, mother);
    let child = manager.create();
    let ghost m1 = *manager;
    tie_blood_relations(manager, child, &classes, father, mother, Ghost(m0));
    let ghost g6 = *manager;
    tie_in_laws(manager, child, &classes, father, mother, Ghost(m0));
    let ghost g11 = *manager;
    proof {
        assert forall|i: int| 0 <= i < m0.spec_len() implies same_but_relations(
            m0.characters@[i],
            #[trigger] g11.characters@[i],
        ) by {
            assert(m1.characters@[i] == m0.characters@[i]);
            assert(same_but_relations(m1.characters@[i], g6.characters@[i]));
            assert(same_but_relations(g6.characters@[i], g11.characters@[i]));
        }
        assert(same_but_relations(m1.chr(child), g11.chr(child))) by {
            let i = child.0 as int;
            assert(same_but_relations(m1.characters@[i], g6.characters@[i]));
            assert(same_but_relations(g6.characters@[i], g11.characters@[i]));
        }
    }
    child
}

/// When a stage's state agrees with the pre-birth state on spouse edges, the
/// in-law targets it finds are exactly the spec-level in-law set.
proof fn lemma_in_law_targets_eq(
    m0: CharacterMgr,
    father: CharacterId,
    mother: CharacterId,
    stage_m: CharacterMgr,
    class_vec: Seq<CharacterId>,
    class_set: Set<CharacterId>,
    relatives: Seq<CharacterId>,
)
    requires
        forall|i: int, x: CharacterId|
            0 <= i < m0.characters@.len() ==> (#[trigger] stage_m.characters@[i].has_edge(
                RelationType::Spouse,
                x,
            ) <==> m0.characters@[i].has_edge(RelationType::Spouse, x)),
        forall|x: CharacterId| #[trigger] class_vec.contains(x) <==> class_set.contains(x),
        forall|x: CharacterId| #[trigger] class_vec.contains(x) ==> x.0 < m0.characters@.len(),
        forall|x: CharacterId| #[trigger] relatives.contains(x) <==> birth_relatives(
            m0,
            father,
            mother,
        ).contains(x),
    ensures
        in_law_targets(stage_m, class_vec, relatives) == birth_in_laws(
            m0,
            father,
            mother,
            class_set,
        ),
{
    assert forall|s: CharacterId|
        #[trigger] in_law_targets(stage_m, class_vec, relatives).contains(s) <==> birth_in_laws(
        m0,
        father,
        mother,
        class_set,
    ).contains(s) by {
        if in_law_targets(stage_m, class_vec, relatives).contains(s) {
            let k = choose|k: int|
                0 <= k < class_vec.len() && stage_m.chr(#[trigger] class_vec[k]).has_edge(
                    RelationType::Spouse,
                    s,
                ) && !relatives.contains(s);
            let tg = class_vec[k];
            assert(class_vec.contains(tg));
            assert(tg.0 < m0.characters@.len());
            assert(m0.characters@[tg.0 as int].has_edge(RelationType::Spouse, s));
            assert(class_set.contains(tg));
            assert(birth_in_laws(m0, father, mother, class_set).contains(s));
        }
        if birth_in_laws(m0, father, mother, class_set).contains(s) {
            let tg = choose|tg: CharacterId|
                #[trigger] class_set.contains(tg) && m0.chr(tg).has_edge(
                    RelationType::Spouse,
                    s,
                ) && !birth_relatives(m0, father, mother).contains(s);
            assert(class_vec.contains(tg));
            let k = choose|k: int| 0 <= k < class_vec.len() && class_vec[k] == tg;
            assert(tg.0 < m0.characters@.len());
            assert(stage_m.characters@[tg.0 as int].has_edge(RelationType::Spouse, s));
            assert(in_law_targets(stage_m, class_vec, relatives).contains(s));
        }
    }
    assert(in_law_targets(stage_m, class_vec, relatives) =~= birth_in_laws(
        m0,
        father,
        mother,
        class_set,
    ));
}


/// A direct-lookup target of a well-formed store is a valid id.
pub proof fn lemma_parent_valid(m: CharacterMgr, id: CharacterId, p: CharacterId)
    requires
        m.wf(),
        rel_ids(m, id, RelationType::Relative(RelativeType::Parent)).contains(p),
    ensures
        p.0 < m.characters@.len(),
{
    lemma_targets_valid(m, id, RelationType::Relative(RelativeType::Parent), p);
}


/// Any direct-lookup target of a well-formed store is a valid id.
pub proof fn lemma_any_target_valid(m: CharacterMgr, id: CharacterId, t: RelationType, p: CharacterId)
    requires
        m.wf(),
        rel_ids(m, id, t).contains(p),
    ensures
        p.0 < m.characters@.len(),
{
    lemma_targets_valid(m, id, t, p);
}

/// Record a character's birth year.
pub fn set_birth_date(manager: &mut CharacterMgr, id: CharacterId, date: Date)
    requires
        old(manager).valid(id),
    ensures
        final(manager).characters@ == old(manager).characters@.update(
            id.0 as int,
            Character { birth_date: date, ..old(manager).chr(id) },
        ),
{
    let character = &mut manager.characters[id.0];
    character.set_birth_date(date);
}

/// A character's birth year.
pub fn get_birth_date(manager: &CharacterMgr, id: CharacterId) -> (r: &Date)
    requires
        manager.valid(id),
    ensures
        *r == manager.chr(id).birth_date,
{
    (&manager.characters[id.0]).birth_date()
}

/// A child is born to the couple: the full birth with all family edges, its
/// birth year and parity-based gender and generated name are set, and it
/// joins the household of the first parent.
#[verifier::rlimit(80)]
#[verifier::spinoff_prover]
pub fn birth(data: &mut SimulationData, id0: CharacterId, id1: CharacterId) -> (child:
    CharacterId)
    requires
        old(data).character_manager.wf(),
        old(data).character_manager.valid(id0),
        old(data).character_manager.valid(id1),
        id0 != id1,
        old(data).character_manager.spec_len() < usize::MAX,
        old(data).character_name_generator.male_names.total_value > 0,
        old(data).character_name_generator.female_names.total_value > 0,
        old(data).character_name_generator.family_names.total_value > 0,
        spec_first_building_edge(
            old(data).character_manager.chr(id0).building_relations@,
            crate::building_relation::BuildingRelationType::Occupant,
        ) matches Some(b) && b.0 < old(data).building_manager.buildings@.len(),
    ensures
        final(data).character_manager.wf(),
        final(data).date == old(data).date,
        final(data).map == old(data).map,
        child.0 == old(data).character_manager.spec_len(),
        final(data).character_manager.characters@.len() == old(data).character_manager.characters@.len() + 1,
        final(data).character_manager.chr(child).birth_date == old(data).date,
        final(data).character_manager.chr(child).gender == (if child.0 % 2 == 0 {
            Gender::Male
        } else {
            Gender::Female
        }),
        final(data).character_manager.chr(child).spec_is_alive(),
        forall|t: RelationType, x: CharacterId|
            #[trigger] final(data).character_manager.chr(child).has_edge(t, x) <==> newborn_edge(
                old(data).character_manager,
                id0,
                id1,
                t,
                x,
            ),
        forall|i: int, t: RelationType, x: CharacterId|
            0 <= i < old(data).character_manager.characters@.len() ==> (#[trigger] final(data).character_manager.characters@[i].has_edge(t, x) <==> old(data).character_manager.characters@[i].has_edge(t, x) || (x == child
                && family_edge_to_newborn(
                old(data).character_manager,
                id0,
                id1,
                CharacterId(i as usize),
                t,
            ))),
        forall|i: int|
            0 <= i < old(data).character_manager.characters@.len()
                ==> same_but_relations_and_buildings(
                old(data).character_manager.characters@[i],
                #[trigger] final(data).character_manager.characters@[i],
            ),
        final(data).character_name_generator == old(data).character_name_generator,
        final(data).building_manager.buildings@.len() == old(
            data,
        ).building_manager.buildings@.len(),
        forall|i: int|
            0 <= i < old(data).character_manager.characters@.len() ==> ((#[trigger] final(data).character_manager.characters@[i]).birth_date == old(data).character_manager.characters@[i].birth_date
                && final(data).character_manager.characters@[i].death_date == old(data).character_manager.characters@[i].death_date
                && final(data).character_manager.characters@[i].gender == old(data).character_manager.characters@[i].gender
                && final(data).character_manager.characters@[i].building_relations == old(data).character_manager.characters@[i].building_relations),
        forall|t: crate::building_relation::BuildingRelationType, b: crate::building::BuildingId|
            #[trigger] final(data).character_manager.chr(child).has_building_edge(t, b) <==> (t
                == crate::building_relation::BuildingRelationType::Occupant && Some(b)
                == spec_first_building_edge(
                old(data).character_manager.chr(id0).building_relations@,
                crate::building_relation::BuildingRelationType::Occupant,
            )),
{
    let ghost d0 = *old(data);
    let child = birth_with_relations(&mut data.character_manager, id0, id1);
    let ghost g1 = *data;
    let date = data.date;
    set_birth_date(&mut data.character_manager, child, date);
    set_gender_based_on_id(&mut data.character_manager, child);
    set_generated_name(data, child);
    let ghost g2 = *data;
    proof {
        assert forall|i: int|
            0 <= i < g2.character_manager.characters@.len() implies #[trigger] g2
            .character_manager.characters@[i].relations == g1.character_manager.characters@[i]
            .relations by {}
        assert(g2.character_manager.wf()) by {
            lemma_wf_from_relations(g1.character_manager, g2.character_manager);
        }
        assert(spec_first_building_edge(
            g2.character_manager.chr(id0).building_relations@,
            crate::building_relation::BuildingRelationType::Occupant,
        ) == spec_first_building_edge(
            d0.character_manager.chr(id0).building_relations@,
            crate::building_relation::BuildingRelationType::Occupant,
        )) by {
            assert(g2.character_manager.chr(id0).building_relations
                == d0.character_manager.chr(id0).building_relations);
        }
    }
    let mut child_vec: Vec<CharacterId> = Vec::new();
    child_vec.push(child);
    proof {
        assert(forall|j: int|
            0 <= j < child_vec@.len() ==> (#[trigger] child_vec@[j]).0
                < g2.character_manager.characters@.len());
    }
    crate::building_usecase::join_parents_home(data, child_vec, id0);
    proof {
        assert forall|i: int|
            0 <= i < data.character_manager.characters@.len() implies #[trigger] data
            .character_manager.characters@[i].relations == g2.character_manager.characters@[i]
            .relations by {}
        assert(data.character_manager.wf()) by {
            lemma_wf_from_relations(g2.character_manager, data.character_manager);
        }
        lemma_edges_unchanged(g1.character_manager, g2.character_manager);
        lemma_edges_unchanged(g2.character_manager, data.character_manager);
        assert(data.character_manager.chr(child).relations == g1.character_manager.chr(
            child,
        ).relations);
        assert forall|t: RelationType, x: CharacterId|
            #[trigger] data.character_manager.chr(child).has_edge(t, x) <==> newborn_edge(
            d0.character_manager,
            id0,
            id1,
            t,
            x,
        ) by {
            assert(data.character_manager.chr(child).relations@ == g1.character_manager.chr(
                child,
            ).relations@);
        }
        // the newborn ends up with exactly one building edge: the occupancy
        // of the first parent's home
        assert(child_vec@[0] == child);
        assert(g2.character_manager.chr(child).building_relations
            == g1.character_manager.chr(child).building_relations);
        assert(g2.character_manager.chr(child).building_relations@.len() == 0);
        let ghost home_id = spec_first_building_edge(
            g2.character_manager.chr(id0).building_relations@,
            crate::building_relation::BuildingRelationType::Occupant,
        )->Some_0;
        assert forall|t: crate::building_relation::BuildingRelationType,
            b: crate::building::BuildingId|
            #[trigger] data.character_manager.chr(child).has_building_edge(t, b) <==> (t
            == crate::building_relation::BuildingRelationType::Occupant && Some(b)
            == spec_first_building_edge(
            d0.character_manager.chr(id0).building_relations@,
            crate::building_relation::BuildingRelationType::Occupant,
        )) by {
            if t == crate::building_relation::BuildingRelationType::Occupant {
                assert(data.character_manager.chr(child_vec@[0]).has_building_edge(t, b)
                    <==> b == home_id);
            } else {
                assert(data.character_manager.chr(child_vec@[0]).has_building_edge(t, b)
                    <==> g2.character_manager.chr(child_vec@[0]).has_building_edge(t, b));
                if g2.character_manager.chr(child).has_building_edge(t, b) {
                    let e = choose|e: int|
                        0 <= e < g2.character_manager.chr(child).building_relations@.len()
                            && g2.character_manager.chr(child).building_relations@[e]
                            == (crate::building_relation::BuildingRelation {
                            relation_type: t,
                            id: b,
                        });
                }
            }
        }
    }
    child
}

/// Records with unchanged relation lists hold exactly the same edges.
proof fn lemma_edges_unchanged(m0: CharacterMgr, m1: CharacterMgr)
    requires
        m1.characters@.len() == m0.characters@.len(),
        forall|i: int|
            0 <= i < m0.characters@.len() ==> #[trigger] m1.characters@[i].relations
                == m0.characters@[i].relations,
    ensures
        forall|i: int, t: RelationType, x: CharacterId|
            0 <= i < m0.characters@.len() ==> (#[trigger] m1.characters@[i].has_edge(t, x)
                == m0.characters@[i].has_edge(t, x)),
{
    assert forall|i: int, t: RelationType, x: CharacterId|
        0 <= i < m0.characters@.len() implies (#[trigger] m1.characters@[i].has_edge(t, x)
        == m0.characters@[i].has_edge(t, x)) by {
        assert(m1.characters@[i].relations@ == m0.characters@[i].relations@);
    }
}

/// Well-formedness depends only on the relation edges, which are unchanged.
pub proof fn lemma_wf_from_relations(m0: CharacterMgr, m1: CharacterMgr)
    requires
        m0.wf(),
        m1.characters@.len() == m0.characters@.len(),
        forall|i: int|
            0 <= i < m0.characters@.len() ==> #[trigger] m1.characters@[i].relations
                == m0.characters@[i].relations,
        forall|i: int|
            0 <= i < m0.characters@.len() ==> #[trigger] m1.characters@[i].id
                == m0.characters@[i].id,
    ensures
        m1.wf(),
{
    assert forall|i: int, k: int|
        0 <= i < m1.characters@.len() && 0 <= k < m1.characters@[i].relations@.len() implies {
        let edge = #[trigger] m1.characters@[i].relations@[k];
        &&& edge.id.0 < m1.characters@.len()
        &&& m1.characters@[edge.id.0 as int].has_edge(
            edge.relation_type.spec_reverse(),
            CharacterId(i as usize),
        )
    } by {
        let edge = m1.characters@[i].relations@[k];
        assert(m0.characters@[i].relations@[k] == edge);
        assert(m0.characters@[edge.id.0 as int].has_edge(
            edge.relation_type.spec_reverse(),
            CharacterId(i as usize),
        ));
        assert(m1.characters@[edge.id.0 as int].relations
            == m0.characters@[edge.id.0 as int].relations);
    }
}

/// Give a character the name the generator yields for it.
pub fn set_generated_name(data: &mut SimulationData, id: CharacterId)
    requires
        old(data).character_manager.wf(),
        old(data).character_manager.valid(id),
        old(data).character_name_generator.male_names.total_value > 0,
        old(data).character_name_generator.female_names.total_value > 0,
        old(data).character_name_generator.family_names.total_value > 0,
    ensures
        final(data).building_manager == old(data).building_manager,
        final(data).date == old(data).date,
        final(data).map == old(data).map,
        final(data).character_name_generator == old(data).character_name_generator,
        final(data).character_manager.characters@ == old(data).character_manager.characters@.update(
            id.0 as int,
            Character {
                name: final(data).character_manager.chr(id).name,
                ..old(data).character_manager.chr(id)
            },
        ),
        final(data).character_manager.chr(id).name@ matches NameView::Standard {
            first,
            last,
        } && first == crate::character_name_gen::spec_first_name(
            old(data).character_name_generator,
            old(data).character_manager,
            id,
        ) && crate::character_name_gen::spec_family_name_ok(
            old(data).character_name_generator,
            old(data).character_manager,
            id,
            last,
        ),
{
    let name = data.character_name_generator.generate(&data.character_manager, id);
    crate::character_usecase::set_name(&mut data.character_manager, id, name);
}

/// `b` is `a` with at most the relation edges, the building edges, the name,
/// the gender, or the dates changed: that is, the identity is kept.
pub open spec fn same_but_relations_and_buildings(a: Character, b: Character) -> bool {
    b.id == a.id
}

} // verus!
