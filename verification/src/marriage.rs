use vstd::prelude::*;
use crate::character::{Character, CharacterId, CharacterMgr};
use crate::character_name::NameView;
use crate::character_usecase::{
    add_relation, add_relations, get_name, same_but_relations, same_but_relations_and_name,
    set_name,
};
use crate::relation::{Relation, RelationType, RelativeType};
use crate::relation_get::{get_relation_to_relatives, get_spouses, rel_ids};

verus! {

/// The in-law edge a blood relative of `from` gains towards a new spouse:
/// the mirror of the kind the relative stands in to `from`.
pub open spec fn in_law_gain(
    m: CharacterMgr,
    from: CharacterId,
    c: CharacterId,
    t: RelationType,
) -> bool {
    exists|k: RelativeType|
        t == RelationType::InLaw(k.spec_reverse()) && #[trigger] m.chr(from).has_edge(
            RelationType::Relative(k),
            c,
        )
}

/// The in-law edge a new spouse gains towards each blood relative of `from`:
/// the same kind the relative stands in to `from`.
pub open spec fn in_law_recv(
    m: CharacterMgr,
    from: CharacterId,
    t: RelationType,
    x: CharacterId,
) -> bool {
    exists|k: RelativeType|
        t == RelationType::InLaw(k) && #[trigger] m.chr(from).has_edge(
            RelationType::Relative(k),
            x,
        )
}

/// The in-law edges a new spouse `to` receives about the blood relatives of
/// `from`: one per relative edge, of the same kind, in stored order.
pub open spec fn recv_edges(m: CharacterMgr, from: CharacterId) -> Seq<Relation> {
    m.chr(from).relations@.filter(|e: Relation| e.relation_type is Relative).map_values(
        |e: Relation| Relation {
            relation_type: RelationType::InLaw(e.relation_type->Relative_0),
            id: e.id,
        },
    )
}

/// The in-law edges record `c` gains towards a new spouse `to` of `from`:
/// one per relative edge of `from` towards `c`, of the mirrored kind, in
/// stored order.
pub open spec fn gain_edges(
    m: CharacterMgr,
    from: CharacterId,
    to: CharacterId,
    c: CharacterId,
) -> Seq<Relation> {
    m.chr(from).relations@.filter(
        |e: Relation| e.relation_type is Relative && e.id == c,
    ).map_values(
        |e: Relation| Relation {
            relation_type: RelationType::InLaw(e.relation_type->Relative_0.spec_reverse()),
            id: to,
        },
    )
}

/// One appended edge changes a record's edge set by exactly that edge.
proof fn lemma_has_edge_push(c_old: Character, c_new: Character, e: Relation)
    requires
        c_new.relations@ == c_old.relations@.push(e),
    ensures
        forall|t: RelationType, x: CharacterId|
            #[trigger] c_new.has_edge(t, x) <==> c_old.has_edge(t, x) || (t == e.relation_type
                && x == e.id),
{
    assert forall|t: RelationType, x: CharacterId|
        #[trigger] c_new.has_edge(t, x) <==> c_old.has_edge(t, x) || (t == e.relation_type && x
            == e.id) by {
        let o = c_old.relations@;
        let nw = c_new.relations@;
        if c_new.has_edge(t, x) {
            let j = choose|j: int|
                0 <= j < nw.len() && nw[j] == (Relation { relation_type: t, id: x });
            if j < o.len() {
                assert(o[j] == (Relation { relation_type: t, id: x }));
                assert(c_old.has_edge(t, x));
            }
        }
        if c_old.has_edge(t, x) {
            let j = choose|j: int|
                0 <= j < o.len() && o[j] == (Relation { relation_type: t, id: x });
            assert(nw[j] == (Relation { relation_type: t, id: x }));
        }
        if t == e.relation_type && x == e.id {
            assert(nw[o.len() as int] == (Relation { relation_type: t, id: x }));
        }
    }
}

/// Filtering twice is filtering by the conjunction, in one pass.
proof fn lemma_filter_filter<A>(
    s: Seq<A>,
    p: spec_fn(A) -> bool,
    q: spec_fn(A) -> bool,
    both: spec_fn(A) -> bool,
)
    requires
        forall|x: A| #[trigger] both(x) == (p(x) && q(x)),
    ensures
        s.filter(p).filter(q) == s.filter(both),
    decreases s.len(),
{
    if s.len() == 0 {
        assert(s.filter(p).filter(q) =~= s.filter(both));
    } else {
        lemma_filter_filter(s.drop_last(), p, q, both);
        assert(s =~= s.drop_last().push(s.last()));
        s.drop_last().lemma_filter_push(s.last(), p);
        s.drop_last().lemma_filter_push(s.last(), both);
        assert(both(s.last()) == (p(s.last()) && q(s.last())));
        if p(s.last()) {
            assert(s.filter(p) == s.drop_last().filter(p).push(s.last()));
            s.drop_last().filter(p).lemma_filter_push(s.last(), q);
        } else {
            assert(s.filter(p) == s.drop_last().filter(p));
        }
    }
}

/// Link every blood relative of `from` to `to` as an in-law, both ways.
fn update_in_laws(manager: &mut CharacterMgr, from: CharacterId, to: CharacterId)
    requires
        old(manager).wf(),
        old(manager).valid(from),
        old(manager).valid(to),
        old(manager).characters@.len() <= usize::MAX,
        from != to,
        forall|k: RelativeType|
            !#[trigger] old(manager).chr(from).has_edge(RelationType::Relative(k), to),
    ensures
        final(manager).wf(),
        final(manager).characters@.len() == old(manager).characters@.len(),
        forall|i: int|
            0 <= i < old(manager).characters@.len() ==> same_but_relations(
                old(manager).characters@[i],
                #[trigger] final(manager).characters@[i],
            ),
        forall|t: RelationType, x: CharacterId|
            #[trigger] final(manager).chr(to).has_edge(t, x) <==> old(manager).chr(to).has_edge(
                t,
                x,
            ) || in_law_recv(*old(manager), from, t, x),
        forall|i: int, t: RelationType, x: CharacterId|
            0 <= i < old(manager).characters@.len() && i != to.0 ==> (#[trigger] final(manager).characters@[i].has_edge(t, x) <==> old(manager).characters@[i].has_edge(t, x) || (x
                == to && in_law_gain(*old(manager), from, CharacterId(i as usize), t))),
        final(manager).chr(to).relations@ == old(manager).chr(to).relations@ + recv_edges(
            *old(manager),
            from,
        ),
        forall|i: int|
            0 <= i < old(manager).characters@.len() && i != to.0 ==> #[trigger] final(manager).characters@[i].relations@ == old(manager).characters@[i].relations@ + gain_edges(
                *old(manager),
                from,
                to,
                CharacterId(i as usize),
            ),
{
    let ghost m0 = *old(manager);
    let in_laws = get_relation_to_relatives(manager, from);
    proof {
        // every entry of the filtered list is a blood-relation edge of `from`,
        // and conversely
        assert forall|j: int| 0 <= j < in_laws@.len() implies ((#[trigger] in_laws@[j])
            .relation_type is Relative && m0.chr(from).has_edge(
            in_laws@[j].relation_type,
            in_laws@[j].id,
        ) && in_laws@[j].id.0 < m0.spec_len() && in_laws@[j].id != to) by {
            let pred = |relation: Relation| relation.relation_type is Relative;
            let rels = m0.chr(from).relations@;
            rels.lemma_filter_pred(pred, j);
            rels.lemma_filter_contains_rev(pred, in_laws@[j]);
            let e = choose|e: int| 0 <= e < rels.len() && rels[e] == in_laws@[j];
            assert(m0.characters@[from.0 as int].relations@[e].id.0 < m0.characters@.len());
            assert(m0.chr(from).has_edge(in_laws@[j].relation_type, in_laws@[j].id));
            let k = in_laws@[j].relation_type->Relative_0;
            assert(!m0.chr(from).has_edge(RelationType::Relative(k), to));
        }
        assert forall|k: RelativeType, x: CharacterId|
            #[trigger] m0.chr(from).has_edge(RelationType::Relative(k), x) implies exists|j: int|
            0 <= j < in_laws@.len() && in_laws@[j] == (Relation {
                relation_type: RelationType::Relative(k),
                id: x,
            }) by {
            let pred = |relation: Relation| relation.relation_type is Relative;
            let rels = m0.chr(from).relations@;
            let e = choose|e: int|
                0 <= e < rels.len() && rels[e] == (Relation {
                    relation_type: RelationType::Relative(k),
                    id: x,
                });
            rels.lemma_filter_contains(pred, e);
            let j = choose|j: int| 0 <= j < in_laws@.len() && in_laws@[j] == rels[e];
        }
    }
    let ghost recv_of = |e: Relation| Relation {
        relation_type: RelationType::InLaw(e.relation_type->Relative_0),
        id: e.id,
    };
    let ghost gain_of = |e: Relation| Relation {
        relation_type: RelationType::InLaw(e.relation_type->Relative_0.spec_reverse()),
        id: to,
    };
    let n = in_laws.len();
    let mut l: usize = 0;
    proof {
        assert(in_laws@.take(0).map_values(recv_of) =~= Seq::<Relation>::empty());
        assert(m0.chr(to).relations@ + in_laws@.take(0).map_values(recv_of) =~= m0.chr(
            to,
        ).relations@);
        assert forall|i: int|
            0 <= i < m0.characters@.len() && i != to.0 implies #[trigger] manager
            .characters@[i].relations@ == m0.characters@[i].relations@ + in_laws@.take(
            0,
        ).filter(|e: Relation| e.id == CharacterId(i as usize)).map_values(gain_of) by {
            assert(in_laws@.take(0).filter(|e: Relation| e.id == CharacterId(i as usize))
                =~= Seq::<Relation>::empty());
            assert(m0.characters@[i].relations@ + in_laws@.take(0).filter(
                |e: Relation| e.id == CharacterId(i as usize),
            ).map_values(gain_of) =~= m0.characters@[i].relations@);
        }
    }
    while l < n
        invariant
            l <= n,
            n == in_laws@.len(),
            recv_of == (|e: Relation| Relation {
                relation_type: RelationType::InLaw(e.relation_type->Relative_0),
                id: e.id,
            }),
            gain_of == (|e: Relation| Relation {
                relation_type: RelationType::InLaw(e.relation_type->Relative_0.spec_reverse()),
                id: to,
            }),
            manager.chr(to).relations@ == m0.chr(to).relations@ + in_laws@.take(
                l as int,
            ).map_values(recv_of),
            forall|i: int|
                0 <= i < m0.characters@.len() && i != to.0 ==> #[trigger] manager
                    .characters@[i].relations@ == m0.characters@[i].relations@ + in_laws@.take(
                    l as int,
                ).filter(|e: Relation| e.id == CharacterId(i as usize)).map_values(gain_of),
            manager.wf(),
            m0 == *old(manager),
            m0.wf(),
            m0.valid(from),
            m0.valid(to),
            m0.characters@.len() <= usize::MAX,
            from != to,
            manager.characters@.len() == m0.characters@.len(),
            forall|j: int| 0 <= j < in_laws@.len() ==> ((#[trigger] in_laws@[j])
                .relation_type is Relative && in_laws@[j].id.0 < m0.spec_len() && in_laws@[j].id
                != to),
            forall|i: int|
                0 <= i < m0.characters@.len() ==> same_but_relations(
                    m0.characters@[i],
                    #[trigger] manager.characters@[i],
                ),
            forall|t: RelationType, x: CharacterId|
                #[trigger] manager.chr(to).has_edge(t, x) <==> m0.chr(to).has_edge(t, x) || exists|
                    j: int,
                |
                    0 <= j < l && #[trigger] in_laws@[j] == (Relation {
                        relation_type: RelationType::Relative(t->InLaw_0),
                        id: x,
                    }) && t is InLaw,
            forall|i: int, t: RelationType, x: CharacterId|
                0 <= i < m0.characters@.len() && i != to.0 ==> (#[trigger] manager.characters@[i]
                    .has_edge(t, x) <==> m0.characters@[i].has_edge(t, x) || (x == to
                    && t is InLaw && exists|j: int|
                    0 <= j < l && #[trigger] in_laws@[j] == (Relation {
                        relation_type: RelationType::Relative(t->InLaw_0.spec_reverse()),
                        id: CharacterId(i as usize),
                    }))),
        decreases n - l,
    {
        let relation = in_laws[l];
        let in_law = match relation.to_in_law() {
            Some(in_law) => in_law,
            None => {
                proof {
                    assert(in_laws@[l as int].relation_type is Relative);
                    assert(false);
                }
                relation
            },
        };
        let ghost pre = *manager;
        add_relation(manager, in_law.id, to, in_law.relation_type);
        proof {
            let ghost k = relation.relation_type->Relative_0;
            let ghost tg = relation.id;
            crate::relation::lemma_relative_reverse_involution(k);
            lemma_has_edge_push(
                pre.chr(to),
                manager.chr(to),
                Relation { relation_type: RelationType::InLaw(k), id: tg },
            );
            lemma_has_edge_push(
                pre.chr(tg),
                manager.chr(tg),
                Relation { relation_type: RelationType::InLaw(k.spec_reverse()), id: to },
            );
            assert forall|t: RelationType, x: CharacterId|
                #[trigger] manager.chr(to).has_edge(t, x) <==> m0.chr(to).has_edge(t, x) || exists|
                    j: int,
                |
                    0 <= j < l + 1 && #[trigger] in_laws@[j] == (Relation {
                        relation_type: RelationType::Relative(t->InLaw_0),
                        id: x,
                    }) && t is InLaw by {
                if manager.chr(to).has_edge(t, x) && !pre.chr(to).has_edge(t, x) {
                    assert(t == RelationType::InLaw(k) && x == tg);
                    assert(in_laws@[l as int] == (Relation {
                        relation_type: RelationType::Relative(t->InLaw_0),
                        id: x,
                    }));
                }
                if exists|j: int|
                    0 <= j < l + 1 && #[trigger] in_laws@[j] == (Relation {
                        relation_type: RelationType::Relative(t->InLaw_0),
                        id: x,
                    }) && t is InLaw {
                    let j = choose|j: int|
                        0 <= j < l + 1 && #[trigger] in_laws@[j] == (Relation {
                            relation_type: RelationType::Relative(t->InLaw_0),
                            id: x,
                        }) && t is InLaw;
                    if j == l {
                        assert(t == RelationType::InLaw(k) && x == tg);
                        assert(manager.chr(to).has_edge(t, x));
                    } else {
                        assert(pre.chr(to).has_edge(t, x));
                        assert(manager.chr(to).has_edge(t, x));
                    }
                }
            }
            assert forall|i: int, t: RelationType, x: CharacterId|
                0 <= i < m0.characters@.len() && i != to.0 implies (#[trigger] manager
                .characters@[i].has_edge(t, x) <==> m0.characters@[i].has_edge(t, x) || (x == to
                && t is InLaw && exists|j: int|
                0 <= j < l + 1 && #[trigger] in_laws@[j] == (Relation {
                    relation_type: RelationType::Relative(t->InLaw_0.spec_reverse()),
                    id: CharacterId(i as usize),
                }))) by {
                let c = CharacterId(i as usize);
                if i == tg.0 {
                    assert(c == tg);
                    assert(manager.characters@[i] == manager.chr(tg));
                    assert(pre.characters@[i] == pre.chr(tg));
                    if manager.chr(tg).has_edge(t, x) && !pre.chr(tg).has_edge(t, x) {
                        assert(t == RelationType::InLaw(k.spec_reverse()) && x == to);
                        assert(t->InLaw_0.spec_reverse() == k);
                        assert(in_laws@[l as int] == (Relation {
                            relation_type: RelationType::Relative(t->InLaw_0.spec_reverse()),
                            id: c,
                        }));
                    }
                    if x == to && t is InLaw && exists|j: int|
                        0 <= j < l + 1 && #[trigger] in_laws@[j] == (Relation {
                            relation_type: RelationType::Relative(t->InLaw_0.spec_reverse()),
                            id: c,
                        }) {
                        let j = choose|j: int|
                            0 <= j < l + 1 && #[trigger] in_laws@[j] == (Relation {
                                relation_type: RelationType::Relative(t->InLaw_0.spec_reverse()),
                                id: c,
                            });
                        if j == l {
                            assert(RelationType::Relative(t->InLaw_0.spec_reverse())
                                == RelationType::Relative(k));
                            assert(t->InLaw_0.spec_reverse() == k);
                            assert(t->InLaw_0 == k.spec_reverse());
                            assert(t == RelationType::InLaw(k.spec_reverse()));
                            assert(manager.chr(tg).has_edge(t, x));
                        } else {
                            assert(pre.characters@[i].has_edge(t, x));
                            assert(manager.chr(tg).has_edge(t, x));
                        }
                    }
                } else {
                    assert(manager.characters@[i].relations == pre.characters@[i].relations);
                    if x == to && t is InLaw && exists|j: int|
                        0 <= j < l + 1 && #[trigger] in_laws@[j] == (Relation {
                            relation_type: RelationType::Relative(t->InLaw_0.spec_reverse()),
                            id: c,
                        }) {
                        let j = choose|j: int|
                            0 <= j < l + 1 && #[trigger] in_laws@[j] == (Relation {
                                relation_type: RelationType::Relative(t->InLaw_0.spec_reverse()),
                                id: c,
                            });
                        if j == l {
                            assert(in_laws@[l as int].id == c);
                            assert(false);
                        } else {
                            assert(pre.characters@[i].has_edge(t, x));
                        }
                    }
                }
            }
            // the stored lists grew by exactly this round's two edges
            assert(in_laws@.take(l + 1) =~= in_laws@.take(l as int).push(in_laws@[l as int]));
            assert(recv_of(in_laws@[l as int]) == (Relation {
                relation_type: RelationType::InLaw(k),
                id: tg,
            }));
            assert(manager.chr(to).relations@ == m0.chr(to).relations@ + in_laws@.take(
                l + 1,
            ).map_values(recv_of)) by {
                assert(in_laws@.take(l + 1).map_values(recv_of) =~= in_laws@.take(
                    l as int,
                ).map_values(recv_of).push(recv_of(in_laws@[l as int])));
                assert(m0.chr(to).relations@ + in_laws@.take(l as int).map_values(
                    recv_of,
                ).push(recv_of(in_laws@[l as int])) =~= (m0.chr(to).relations@
                    + in_laws@.take(l as int).map_values(recv_of)).push(
                    recv_of(in_laws@[l as int]),
                ));
                assert(manager.chr(to).relations@ == pre.chr(to).relations@.push(
                    Relation { relation_type: RelationType::InLaw(k), id: tg },
                ));
            }
            assert forall|i: int|
                0 <= i < m0.characters@.len() && i != to.0 implies #[trigger] manager
                .characters@[i].relations@ == m0.characters@[i].relations@ + in_laws@.take(
                l + 1,
            ).filter(|e: Relation| e.id == CharacterId(i as usize)).map_values(gain_of) by {
                let c = CharacterId(i as usize);
                let idp = |e: Relation| e.id == c;
                in_laws@.take(l as int).lemma_filter_push(in_laws@[l as int], idp);
                if i == tg.0 {
                    assert(c == tg);
                    assert(idp(in_laws@[l as int]));
                    assert(in_laws@.take(l + 1).filter(idp) == in_laws@.take(l as int).filter(
                        idp,
                    ).push(in_laws@[l as int]));
                    assert(gain_of(in_laws@[l as int]) == (Relation {
                        relation_type: RelationType::InLaw(k.spec_reverse()),
                        id: to,
                    }));
                    assert(in_laws@.take(l + 1).filter(idp).map_values(gain_of)
                        =~= in_laws@.take(l as int).filter(idp).map_values(gain_of).push(
                        gain_of(in_laws@[l as int]),
                    ));
                    assert(m0.characters@[i].relations@ + in_laws@.take(l as int).filter(
                        idp,
                    ).map_values(gain_of).push(gain_of(in_laws@[l as int])) =~= (m0
                        .characters@[i].relations@ + in_laws@.take(l as int).filter(
                        idp,
                    ).map_values(gain_of)).push(gain_of(in_laws@[l as int])));
                    assert(manager.characters@[i].relations@ == pre.characters@[i]
                        .relations@.push(Relation {
                        relation_type: RelationType::InLaw(k.spec_reverse()),
                        id: to,
                    }));
                } else {
                    assert(!idp(in_laws@[l as int]));
                    assert(in_laws@.take(l + 1).filter(idp) == in_laws@.take(l as int).filter(
                        idp,
                    ));
                    assert(manager.characters@[i].relations == pre.characters@[i].relations);
                }
            }
        }
        l = l + 1;
    }
    proof {
        // the processed prefix is the whole list: fold back into the spec form
        assert(in_laws@.take(n as int) =~= in_laws@);
        assert(in_laws@ == m0.chr(from).relations@.filter(
            |e: Relation| e.relation_type is Relative,
        ));
        assert(manager.chr(to).relations@ == m0.chr(to).relations@ + recv_edges(m0, from)) by {
            assert(in_laws@.map_values(recv_of) =~= recv_edges(m0, from));
        }
        assert forall|i: int|
            0 <= i < m0.characters@.len() && i != to.0 implies #[trigger] manager
            .characters@[i].relations@ == m0.characters@[i].relations@ + gain_edges(
            m0,
            from,
            to,
            CharacterId(i as usize),
        ) by {
            let c = CharacterId(i as usize);
            let idp = |e: Relation| e.id == c;
            let relp = |e: Relation| e.relation_type is Relative;
            let both = |e: Relation| e.relation_type is Relative && e.id == c;
            lemma_filter_filter(m0.chr(from).relations@, relp, idp, both);
            assert(in_laws@.filter(idp) == m0.chr(from).relations@.filter(both));
            assert(m0.chr(from).relations@.filter(both).map_values(gain_of) =~= gain_edges(
                m0,
                from,
                to,
                c,
            ));
        }
        assert forall|t: RelationType, x: CharacterId|
            #[trigger] manager.chr(to).has_edge(t, x) <==> m0.chr(to).has_edge(t, x)
                || in_law_recv(m0, from, t, x) by {
            if manager.chr(to).has_edge(t, x) && !m0.chr(to).has_edge(t, x) {
                let j = choose|j: int|
                    0 <= j < n && #[trigger] in_laws@[j] == (Relation {
                        relation_type: RelationType::Relative(t->InLaw_0),
                        id: x,
                    }) && t is InLaw;
                assert(m0.chr(from).has_edge(RelationType::Relative(t->InLaw_0), x));
                assert(in_law_recv(m0, from, t, x));
            }
            if in_law_recv(m0, from, t, x) {
                let k = choose|k: RelativeType|
                    t == RelationType::InLaw(k) && #[trigger] m0.chr(from).has_edge(
                        RelationType::Relative(k),
                        x,
                    );
                let j = choose|j: int|
                    0 <= j < in_laws@.len() && in_laws@[j] == (Relation {
                        relation_type: RelationType::Relative(k),
                        id: x,
                    });
                assert(t->InLaw_0 == k);
                assert(manager.chr(to).has_edge(t, x));
            }
        }
        assert forall|i: int, t: RelationType, x: CharacterId|
            0 <= i < m0.characters@.len() && i != to.0 implies (#[trigger] manager.characters@[i]
            .has_edge(t, x) <==> m0.characters@[i].has_edge(t, x) || (x == to && in_law_gain(
            m0,
            from,
            CharacterId(i as usize),
            t,
        ))) by {
            let c = CharacterId(i as usize);
            if manager.characters@[i].has_edge(t, x) && !m0.characters@[i].has_edge(t, x) {
                let j = choose|j: int|
                    0 <= j < n && #[trigger] in_laws@[j] == (Relation {
                        relation_type: RelationType::Relative(t->InLaw_0.spec_reverse()),
                        id: c,
                    });
                let k = t->InLaw_0.spec_reverse();
                assert(m0.chr(from).has_edge(RelationType::Relative(k), c));
                assert(t == RelationType::InLaw(k.spec_reverse())) by {
                    crate::relation::lemma_relative_reverse_involution(t->InLaw_0);
                }
                assert(in_law_gain(m0, from, c, t));
            }
            if x == to && in_law_gain(m0, from, c, t) {
                let k = choose|k: RelativeType|
                    t == RelationType::InLaw(k.spec_reverse()) && #[trigger] m0.chr(
                        from,
                    ).has_edge(RelationType::Relative(k), c);
                let j = choose|j: int|
                    0 <= j < in_laws@.len() && in_laws@[j] == (Relation {
                        relation_type: RelationType::Relative(k),
                        id: c,
                    });
                assert(t->InLaw_0 == k.spec_reverse());
                assert(t->InLaw_0.spec_reverse() == k) by {
                    crate::relation::lemma_relative_reverse_involution(k);
                }
                assert(manager.characters@[i].has_edge(t, x));
            }
        }
    }
}

/// Appending edges that are not blood relations leaves the relative-edge
/// list, and so the derived in-law lists, unchanged.
proof fn lemma_relative_filter_stable(old_rels: Seq<Relation>, appended: Seq<Relation>)
    requires
        forall|j: int|
            0 <= j < appended.len() ==> !((#[trigger] appended[j]).relation_type is Relative),
    ensures
        (old_rels + appended).filter(|e: Relation| e.relation_type is Relative)
            == old_rels.filter(|e: Relation| e.relation_type is Relative),
    decreases appended.len(),
{
    let relp = |e: Relation| e.relation_type is Relative;
    if appended.len() == 0 {
        assert(old_rels + appended =~= old_rels);
    } else {
        lemma_relative_filter_stable(old_rels, appended.drop_last());
        assert(old_rels + appended =~= (old_rels + appended.drop_last()).push(
            appended.last(),
        ));
        (old_rels + appended.drop_last()).lemma_filter_push(appended.last(), relp);
        assert(!relp(appended.last()));
    }
}

/// Update the name of `id1` after marrying `id0`: when `id0` carries a last
/// name, `id1` takes it as married name; otherwise nothing changes.
fn update_names(manager: &mut CharacterMgr, id0: CharacterId, id1: CharacterId)
    requires
        old(manager).valid(id0),
        old(manager).valid(id1),
    ensures
        final(manager).characters@.len() == old(manager).characters@.len(),
        forall|i: int|
            0 <= i < old(manager).characters@.len() && i != id1.0 ==> #[trigger] final(manager).characters@[i] == old(manager).characters@[i],
        match old(manager).chr(id0).name@.spec_last() {
            Some(l) => final(manager).chr(id1) == (Character {
                name: final(manager).chr(id1).name,
                ..old(manager).chr(id1)
            }) && final(manager).chr(id1).name@ == old(manager).chr(id1).name@.spec_marry(l),
            None => final(manager).chr(id1) == old(manager).chr(id1),
        },
{
    let last_opt = {
        let name = get_name(manager, id0);
        match name.get_last() {
            Some(last) => Some(last.to_owned()),
            None => None,
        }
    };
    if let Some(last) = last_opt {
        let new_name = get_name(manager, id1).marry(last.as_str());
        set_name(manager, id1, new_name);
    }
}

/// Marry two characters: each side's blood relatives become the other side's
/// in-laws, a symmetric spouse edge ties the couple, and the second character
/// takes the first one's last name if it has one.
pub fn marry(manager: &mut CharacterMgr, id0: CharacterId, id1: CharacterId)
    requires
        old(manager).wf(),
        old(manager).valid(id0),
        old(manager).valid(id1),
        old(manager).characters@.len() <= usize::MAX,
        id0 != id1,
        forall|x: CharacterId| !old(manager).chr(id0).has_edge(RelationType::Spouse, x),
        forall|x: CharacterId| !old(manager).chr(id1).has_edge(RelationType::Spouse, x),
        forall|k: RelativeType|
            !#[trigger] old(manager).chr(id0).has_edge(RelationType::Relative(k), id1),
        forall|k: RelativeType|
            !#[trigger] old(manager).chr(id1).has_edge(RelationType::Relative(k), id0),
    ensures
        final(manager).wf(),
        final(manager).characters@.len() == old(manager).characters@.len(),
        forall|i: int|
            0 <= i < old(manager).characters@.len() && i != id1.0 ==> same_but_relations(
                old(manager).characters@[i],
                #[trigger] final(manager).characters@[i],
            ),
        same_but_relations_and_name(
            old(manager).characters@[id1.0 as int],
            final(manager).characters@[id1.0 as int],
        ),
        match old(manager).chr(id0).name@.spec_last() {
            Some(l) => final(manager).chr(id1).name@ == old(manager).chr(id1).name@.spec_marry(
                l,
            ),
            None => final(manager).chr(id1).name == old(manager).chr(id1).name,
        },
        forall|x: CharacterId|
            #[trigger] final(manager).chr(id0).has_edge(RelationType::Spouse, x) <==> x == id1,
        forall|x: CharacterId|
            #[trigger] final(manager).chr(id1).has_edge(RelationType::Spouse, x) <==> x == id0,
        forall|i: int, t: RelationType, x: CharacterId|
            0 <= i < old(manager).characters@.len() ==> (#[trigger] final(manager).characters@[i]
                .has_edge(t, x) <==> old(manager).characters@[i].has_edge(t, x) || (i == id1.0
                && in_law_recv(*old(manager), id0, t, x)) || (x == id1 && in_law_gain(
                *old(manager),
                id0,
                CharacterId(i as usize),
                t,
            )) || (i == id0.0 && in_law_recv(*old(manager), id1, t, x)) || (x == id0
                && in_law_gain(*old(manager), id1, CharacterId(i as usize), t)) || (i == id0.0
                && t == RelationType::Spouse && x == id1) || (i == id1.0 && t
                == RelationType::Spouse && x == id0)),
        final(manager).chr(id1).relations@ == old(manager).chr(id1).relations@ + recv_edges(
            *old(manager),
            id0,
        ) + gain_edges(*old(manager), id1, id0, id1) + seq![
            Relation { relation_type: RelationType::Spouse, id: id0 },
        ],
        final(manager).chr(id0).relations@ == old(manager).chr(id0).relations@ + gain_edges(
            *old(manager),
            id0,
            id1,
            id0,
        ) + recv_edges(*old(manager), id1) + seq![
            Relation { relation_type: RelationType::Spouse, id: id1 },
        ],
        forall|i: int|
            0 <= i < old(manager).characters@.len() && i != id0.0 && i != id1.0
                ==> #[trigger] final(manager).characters@[i].relations@ == old(
                manager,
            ).characters@[i].relations@ + gain_edges(
                *old(manager),
                id0,
                id1,
                CharacterId(i as usize),
            ) + gain_edges(*old(manager), id1, id0, CharacterId(i as usize)),
{
    let ghost m0 = *old(manager);
    update_in_laws(manager, id0, id1);
    let ghost g1 = *manager;
    proof {
        assert forall|k: RelativeType|
            !#[trigger] g1.chr(id1).has_edge(RelationType::Relative(k), id0) by {
            assert(g1.characters@[id1.0 as int].has_edge(RelationType::Relative(k), id0)
                <==> m0.characters@[id1.0 as int].has_edge(RelationType::Relative(k), id0)
                || in_law_recv(m0, id0, RelationType::Relative(k), id0));
        }
        // the relative edges of `id1` are untouched, so the in-law specs of
        // the second pass can be read against the pre-marriage state
        assert forall|k: RelativeType, x: CharacterId|
            #[trigger] g1.chr(id1).has_edge(RelationType::Relative(k), x) <==> m0.chr(
            id1,
        ).has_edge(RelationType::Relative(k), x) by {
            assert(g1.characters@[id1.0 as int].has_edge(RelationType::Relative(k), x)
                <==> m0.characters@[id1.0 as int].has_edge(RelationType::Relative(k), x)
                || in_law_recv(m0, id0, RelationType::Relative(k), x));
        }
        assert forall|t: RelationType, x: CharacterId|
            #[trigger] in_law_recv(g1, id1, t, x) <==> in_law_recv(m0, id1, t, x) by {
            if in_law_recv(g1, id1, t, x) {
                let k = choose|k: RelativeType|
                    t == RelationType::InLaw(k) && #[trigger] g1.chr(id1).has_edge(
                        RelationType::Relative(k),
                        x,
                    );
                assert(m0.chr(id1).has_edge(RelationType::Relative(k), x));
            }
            if in_law_recv(m0, id1, t, x) {
                let k = choose|k: RelativeType|
                    t == RelationType::InLaw(k) && #[trigger] m0.chr(id1).has_edge(
                        RelationType::Relative(k),
                        x,
                    );
                assert(g1.chr(id1).has_edge(RelationType::Relative(k), x));
            }
        }
        assert forall|c: CharacterId, t: RelationType|
            #[trigger] in_law_gain(g1, id1, c, t) <==> in_law_gain(m0, id1, c, t) by {
            if in_law_gain(g1, id1, c, t) {
                let k = choose|k: RelativeType|
                    t == RelationType::InLaw(k.spec_reverse()) && #[trigger] g1.chr(
                        id1,
                    ).has_edge(RelationType::Relative(k), c);
                assert(m0.chr(id1).has_edge(RelationType::Relative(k), c));
            }
            if in_law_gain(m0, id1, c, t) {
                let k = choose|k: RelativeType|
                    t == RelationType::InLaw(k.spec_reverse()) && #[trigger] m0.chr(
                        id1,
                    ).has_edge(RelationType::Relative(k), c);
                assert(g1.chr(id1).has_edge(RelationType::Relative(k), c));
            }
        }
    }
    update_in_laws(manager, id1, id0);
    let ghost g2 = *manager;
    let mut spouse_vec: Vec<CharacterId> = Vec::new();
    spouse_vec.push(id1);
    proof {
        assert(spouse_vec@ =~= seq![id1]);
        assert(!spouse_vec@.contains(id0)) by {
            if spouse_vec@.contains(id0) {
                let j = choose|j: int| 0 <= j < spouse_vec@.len() && spouse_vec@[j] == id0;
            }
        }
        assert(spouse_vec@.no_duplicates());
        assert(spouse_vec@[0] == id1);
    }
    add_relations(manager, id0, &spouse_vec, RelationType::Spouse);
    let ghost g3 = *manager;
    proof {
        assert(g3.chr(id1).relations@ == g2.chr(id1).relations@.push(
            Relation { relation_type: RelationType::Spouse, id: id0 },
        ));
        let f = |o: CharacterId| Relation {
            relation_type: RelationType::Spouse.spec_reverse(),
            id: o,
        };
        assert(spouse_vec@.map_values(f) =~= seq![
            Relation { relation_type: RelationType::Spouse, id: id1 },
        ]);
        assert(g3.chr(id0).relations@ == g2.chr(id0).relations@.push(
            Relation { relation_type: RelationType::Spouse, id: id1 },
        )) by {
            assert(g2.chr(id0).relations@ + spouse_vec@.map_values(f) =~= g2.chr(
                id0,
            ).relations@.push(Relation { relation_type: RelationType::Spouse, id: id1 }));
        }
        lemma_has_edge_push(
            g2.chr(id1),
            g3.chr(id1),
            Relation { relation_type: RelationType::Spouse, id: id0 },
        );
        lemma_has_edge_push(
            g2.chr(id0),
            g3.chr(id0),
            Relation { relation_type: RelationType::Spouse, id: id1 },
        );
    }
    update_names(manager, id0, id1);
    proof {
        let g4 = *manager;
        assert(g3.chr(id0).name == g2.chr(id0).name && g2.chr(id0).name == g1.chr(id0).name
            && g1.chr(id0).name == m0.chr(id0).name);
        assert forall|i: int, t: RelationType, x: CharacterId|
            0 <= i < m0.characters@.len() implies (#[trigger] g4.characters@[i].has_edge(t, x)
            <==> m0.characters@[i].has_edge(t, x) || (i == id1.0 && in_law_recv(
            m0,
            id0,
            t,
            x,
        )) || (x == id1 && in_law_gain(m0, id0, CharacterId(i as usize), t)) || (i == id0.0
            && in_law_recv(m0, id1, t, x)) || (x == id0 && in_law_gain(
            m0,
            id1,
            CharacterId(i as usize),
            t,
        )) || (i == id0.0 && t == RelationType::Spouse && x == id1) || (i == id1.0 && t
            == RelationType::Spouse && x == id0)) by {
            let c = CharacterId(i as usize);
            assert(g4.characters@[i].relations == g3.characters@[i].relations);
            assert(g1.characters@[i].has_edge(t, x) <==> m0.characters@[i].has_edge(t, x) || (i
                == id1.0 && in_law_recv(m0, id0, t, x)) || (x == id1 && in_law_gain(
                m0,
                id0,
                c,
                t,
            ))) by {
                if i == id1.0 {
                    assert(c == id1);
                    assert(g1.chr(id1).has_edge(t, x) <==> m0.chr(id1).has_edge(t, x)
                        || in_law_recv(m0, id0, t, x));
                    if x == id1 && in_law_gain(m0, id0, c, t) {
                        let k = choose|k: RelativeType|
                            t == RelationType::InLaw(k.spec_reverse()) && #[trigger] m0.chr(
                                id0,
                            ).has_edge(RelationType::Relative(k), id1);
                        assert(false);
                    }
                }
            }
            assert(g2.characters@[i].has_edge(t, x) <==> g1.characters@[i].has_edge(t, x) || (i
                == id0.0 && in_law_recv(m0, id1, t, x)) || (x == id0 && in_law_gain(
                m0,
                id1,
                c,
                t,
            ))) by {
                if i == id0.0 {
                    assert(c == id0);
                    assert(g2.chr(id0).has_edge(t, x) <==> g1.chr(id0).has_edge(t, x)
                        || in_law_recv(g1, id1, t, x));
                    if x == id0 && in_law_gain(g1, id1, c, t) {
                        let k = choose|k: RelativeType|
                            t == RelationType::InLaw(k.spec_reverse()) && #[trigger] g1.chr(
                                id1,
                            ).has_edge(RelationType::Relative(k), id0);
                        assert(false);
                    }
                } else {
                    assert(g2.characters@[i].has_edge(t, x) <==> g1.characters@[i].has_edge(
                        t,
                        x,
                    ) || (x == id0 && in_law_gain(g1, id1, c, t)));
                }
            }
            if i == id0.0 {
                assert(c == id0);
                assert(g3.characters@[i].has_edge(t, x) <==> g2.chr(id0).has_edge(t, x) || (t
                    == RelationType::Spouse && x == id1));
            } else if i == id1.0 {
                assert(c == id1);
                assert(g3.characters@[i].has_edge(t, x) <==> g2.chr(id1).has_edge(t, x) || (t
                    == RelationType::Spouse && x == id0));
            } else {
                assert(!spouse_vec@.contains(c)) by {
                    if spouse_vec@.contains(c) {
                        let l = choose|l: int|
                            0 <= l < spouse_vec@.len() && spouse_vec@[l] == c;
                    }
                }
                assert(g3.characters@[i].relations == g2.characters@[i].relations);
            }
            assert(g4.characters@[i].relations == g3.characters@[i].relations);
            assert(g4.characters@[i].has_edge(t, x) <==> g3.characters@[i].has_edge(t, x));
        }
        assert forall|x: CharacterId|
            #[trigger] g4.chr(id0).has_edge(RelationType::Spouse, x) <==> x == id1 by {
            if in_law_recv(m0, id0, RelationType::Spouse, x) {
                let k = choose|k: RelativeType|
                    RelationType::Spouse == RelationType::InLaw(k) && #[trigger] m0.chr(
                        id0,
                    ).has_edge(RelationType::Relative(k), x);
            }
            if in_law_recv(m0, id1, RelationType::Spouse, x) {
                let k = choose|k: RelativeType|
                    RelationType::Spouse == RelationType::InLaw(k) && #[trigger] m0.chr(
                        id1,
                    ).has_edge(RelationType::Relative(k), x);
            }
            if x == id0 && in_law_gain(m0, id1, id0, RelationType::Spouse) {
                let k = choose|k: RelativeType|
                    RelationType::Spouse == RelationType::InLaw(k.spec_reverse())
                        && #[trigger] m0.chr(id1).has_edge(RelationType::Relative(k), id0);
            }
            if x == id1 && in_law_gain(m0, id0, id0, RelationType::Spouse) {
                let k = choose|k: RelativeType|
                    RelationType::Spouse == RelationType::InLaw(k.spec_reverse())
                        && #[trigger] m0.chr(id0).has_edge(RelationType::Relative(k), id0);
            }
        }
        assert forall|x: CharacterId|
            #[trigger] g4.chr(id1).has_edge(RelationType::Spouse, x) <==> x == id0 by {
            if in_law_recv(m0, id0, RelationType::Spouse, x) {
                let k = choose|k: RelativeType|
                    RelationType::Spouse == RelationType::InLaw(k) && #[trigger] m0.chr(
                        id0,
                    ).has_edge(RelationType::Relative(k), x);
            }
            if in_law_recv(m0, id1, RelationType::Spouse, x) {
                let k = choose|k: RelativeType|
                    RelationType::Spouse == RelationType::InLaw(k) && #[trigger] m0.chr(
                        id1,
                    ).has_edge(RelationType::Relative(k), x);
            }
            if x == id1 && in_law_gain(m0, id0, id1, RelationType::Spouse) {
                let k = choose|k: RelativeType|
                    RelationType::Spouse == RelationType::InLaw(k.spec_reverse())
                        && #[trigger] m0.chr(id0).has_edge(RelationType::Relative(k), id1);
            }
            if x == id0 && in_law_gain(m0, id1, id1, RelationType::Spouse) {
                let k = choose|k: RelativeType|
                    RelationType::Spouse == RelationType::InLaw(k.spec_reverse())
                        && #[trigger] m0.chr(id1).has_edge(RelationType::Relative(k), id1);
            }
        }
        // the stored lists grew by exactly the pieces each stage appended:
        // the first in-law pass reads the original relative lists, the second
        // reads lists whose additions are all in-law edges and so filters to
        // the same relatives
        let relp = |e: Relation| e.relation_type is Relative;
        assert(g1.chr(id1).relations@ == m0.chr(id1).relations@ + recv_edges(m0, id0));
        assert(g1.chr(id0).relations@ == m0.chr(id0).relations@ + gain_edges(m0, id0, id1, id0));
        assert forall|j: int|
            0 <= j < recv_edges(m0, id0).len() implies !((#[trigger] recv_edges(m0, id0)[j])
            .relation_type is Relative) by {
            let filtered = m0.chr(id0).relations@.filter(relp);
            assert(recv_edges(m0, id0)[j] == (Relation {
                relation_type: RelationType::InLaw(filtered[j].relation_type->Relative_0),
                id: filtered[j].id,
            }));
        }
        assert forall|j: int, c: CharacterId, fr: CharacterId, t2: CharacterId|
            0 <= j < gain_edges(m0, fr, t2, c).len() implies !((#[trigger] gain_edges(
            m0,
            fr,
            t2,
            c,
        )[j]).relation_type is Relative) by {
            let filtered = m0.chr(fr).relations@.filter(
                |e: Relation| e.relation_type is Relative && e.id == c,
            );
            assert(gain_edges(m0, fr, t2, c)[j] == (Relation {
                relation_type: RelationType::InLaw(
                    filtered[j].relation_type->Relative_0.spec_reverse(),
                ),
                id: t2,
            }));
        }
        assert(g1.chr(id1).relations@.filter(relp) == m0.chr(id1).relations@.filter(relp)) by {
            lemma_relative_filter_stable(m0.chr(id1).relations@, recv_edges(m0, id0));
            assert(g1.chr(id1).relations@ == m0.chr(id1).relations@ + recv_edges(m0, id0));
        }
        assert(recv_edges(g1, id1) == recv_edges(m0, id1));
        assert forall|c: CharacterId| #[trigger] gain_edges(g1, id1, id0, c) == gain_edges(
            m0,
            id1,
            id0,
            c,
        ) by {
            let both = |e: Relation| e.relation_type is Relative && e.id == c;
            lemma_relative_filter_stable_for(m0.chr(id1).relations@, recv_edges(m0, id0), c);
        }
        // second pass over the first pass's state
        assert(g2.chr(id0).relations@ == g1.chr(id0).relations@ + recv_edges(g1, id1));
        assert(g2.chr(id1).relations@ == g1.chr(id1).relations@ + gain_edges(g1, id1, id0, id1));
        // spouse edges appended last; the name update leaves lists alone
        assert(g4.chr(id1).relations@ == g3.chr(id1).relations@);
        assert(g4.chr(id0).relations@ == g3.chr(id0).relations@);
        assert(g4.chr(id1).relations@ == m0.chr(id1).relations@ + recv_edges(m0, id0)
            + gain_edges(m0, id1, id0, id1) + seq![
            Relation { relation_type: RelationType::Spouse, id: id0 },
        ]) by {
            assert(g3.chr(id1).relations@ == g2.chr(id1).relations@.push(
                Relation { relation_type: RelationType::Spouse, id: id0 },
            ));
            assert((m0.chr(id1).relations@ + recv_edges(m0, id0)) + gain_edges(
                m0,
                id1,
                id0,
                id1,
            ) =~= g2.chr(id1).relations@);
            assert(g2.chr(id1).relations@.push(
                Relation { relation_type: RelationType::Spouse, id: id0 },
            ) =~= m0.chr(id1).relations@ + recv_edges(m0, id0) + gain_edges(
                m0,
                id1,
                id0,
                id1,
            ) + seq![Relation { relation_type: RelationType::Spouse, id: id0 }]);
        }
        assert(g4.chr(id0).relations@ == m0.chr(id0).relations@ + gain_edges(m0, id0, id1, id0)
            + recv_edges(m0, id1) + seq![
            Relation { relation_type: RelationType::Spouse, id: id1 },
        ]) by {
            assert(g3.chr(id0).relations@ == g2.chr(id0).relations@.push(
                Relation { relation_type: RelationType::Spouse, id: id1 },
            ));
            assert((m0.chr(id0).relations@ + gain_edges(m0, id0, id1, id0)) + recv_edges(
                m0,
                id1,
            ) =~= g2.chr(id0).relations@);
            assert(g2.chr(id0).relations@.push(
                Relation { relation_type: RelationType::Spouse, id: id1 },
            ) =~= m0.chr(id0).relations@ + gain_edges(m0, id0, id1, id0) + recv_edges(
                m0,
                id1,
            ) + seq![Relation { relation_type: RelationType::Spouse, id: id1 }]);
        }
        assert forall|i: int|
            0 <= i < m0.characters@.len() && i != id0.0 && i != id1.0 implies #[trigger] g4
            .characters@[i].relations@ == m0.characters@[i].relations@ + gain_edges(
            m0,
            id0,
            id1,
            CharacterId(i as usize),
        ) + gain_edges(m0, id1, id0, CharacterId(i as usize)) by {
            let c = CharacterId(i as usize);
            assert(g1.characters@[i].relations@ == m0.characters@[i].relations@ + gain_edges(
                m0,
                id0,
                id1,
                c,
            ));
            assert(g2.characters@[i].relations@ == g1.characters@[i].relations@ + gain_edges(
                g1,
                id1,
                id0,
                c,
            ));
            assert(gain_edges(g1, id1, id0, c) == gain_edges(m0, id1, id0, c));
            assert(g3.characters@[i].relations == g2.characters@[i].relations);
            assert(g4.characters@[i].relations == g3.characters@[i].relations);
            assert((m0.characters@[i].relations@ + gain_edges(m0, id0, id1, c)) + gain_edges(
                m0,
                id1,
                id0,
                c,
            ) =~= m0.characters@[i].relations@ + gain_edges(m0, id0, id1, c) + gain_edges(
                m0,
                id1,
                id0,
                c,
            ));
        }
    }
}

/// The relative-edge filter of a list extended by in-law edges keeps both
/// the plain filter and the per-target filter, so the derived gain lists
/// agree across the extension.
proof fn lemma_relative_filter_stable_for(
    old_rels: Seq<Relation>,
    appended: Seq<Relation>,
    c: CharacterId,
)
    requires
        forall|j: int|
            0 <= j < appended.len() ==> !((#[trigger] appended[j]).relation_type is Relative),
    ensures
        (old_rels + appended).filter(
            |e: Relation| e.relation_type is Relative && e.id == c,
        ) == old_rels.filter(|e: Relation| e.relation_type is Relative && e.id == c),
    decreases appended.len(),
{
    let both = |e: Relation| e.relation_type is Relative && e.id == c;
    if appended.len() == 0 {
        assert(old_rels + appended =~= old_rels);
    } else {
        lemma_relative_filter_stable_for(old_rels, appended.drop_last(), c);
        assert(old_rels + appended =~= (old_rels + appended.drop_last()).push(
            appended.last(),
        ));
        (old_rels + appended.drop_last()).lemma_filter_push(appended.last(), both);
        assert(!both(appended.last()));
    }
}

/// Whether a character has a recorded spouse edge.
pub fn is_married(character: &Character) -> (r: bool)
    ensures
        r == exists|x: CharacterId| character.has_edge(RelationType::Spouse, x),
{
    let n = character.relations.len();
    let mut i: usize = 0;
    while i < n
        invariant
            i <= n,
            n == character.relations@.len(),
            forall|k: int|
                0 <= k < i ==> (#[trigger] character.relations@[k]).relation_type
                    != RelationType::Spouse,
        decreases n - i,
    {
        if character.relations[i].relation_type() == &RelationType::Spouse {
            proof {
                assert(character.has_edge(
                    RelationType::Spouse,
                    character.relations@[i as int].id,
                ));
            }
            return true;
        }
        i = i + 1;
    }
    proof {
        if exists|x: CharacterId| character.has_edge(RelationType::Spouse, x) {
            let x = choose|x: CharacterId| character.has_edge(RelationType::Spouse, x);
            let k = choose|k: int|
                0 <= k < character.relations@.len() && character.relations@[k] == (Relation {
                    relation_type: RelationType::Spouse,
                    id: x,
                });
        }
    }
    false
}

/// The ids of every character without a spouse edge, in store order.
pub fn get_unmarried(manager: &CharacterMgr) -> (r: Vec<CharacterId>)
    requires
        manager.ids_consistent(),
    ensures
        r@.no_duplicates(),
        forall|x: CharacterId| #[trigger] r@.contains(x) <==> (manager.valid(x) && !exists|
            s: CharacterId,
        | manager.chr(x).has_edge(RelationType::Spouse, s)),
{
    let mut result: Vec<CharacterId> = Vec::new();
    let n = manager.characters.len();
    let mut i: usize = 0;
    while i < n
        invariant
            i <= n,
            n == manager.characters@.len(),
            manager.ids_consistent(),
            result@.no_duplicates(),
            forall|x: CharacterId| #[trigger] result@.contains(x) <==> (x.0 < i && !exists|
                s: CharacterId,
            | manager.chr(x).has_edge(RelationType::Spouse, s)),
        decreases n - i,
    {
        let character = &manager.characters[i];
        let ghost result0 = result@;
        let married = is_married(character);
        if !married {
            result.push(*character.id());
        }
        proof {
            let id = manager.characters@[i as int].id;
            assert(id == CharacterId(i));
            if !married {
                assert(!result0.contains(id));
                assert(result@ == result0.push(id));
            }
            assert forall|x: CharacterId| #[trigger] result@.contains(x) <==> (x.0 < i + 1
                && !exists|s: CharacterId|
                manager.chr(x).has_edge(RelationType::Spouse, s)) by {
                if !married {
                    vstd::seq_lib::lemma_seq_contains_after_push(result0, id, x);
                }
                if x.0 == i {
                    assert(manager.chr(x).id == CharacterId(i));
                }
            }
        }
        i = i + 1;
    }
    result
}

/// Every married couple, each pair listed once with the smaller id first.
pub fn get_married_couples(manager: &CharacterMgr) -> (r: Vec<(CharacterId, CharacterId)>)
    requires
        manager.ids_consistent(),
    ensures
        r@.no_duplicates(),
        forall|a: CharacterId, b: CharacterId|
            #[trigger] r@.contains((a, b)) <==> (a.0 <= b.0 && ((manager.valid(a) && manager.chr(
                a,
            ).has_edge(RelationType::Spouse, b)) || (manager.valid(b) && manager.chr(b).has_edge(
                RelationType::Spouse,
                a,
            ))) && (a.0 < b.0 || a == b)),
{
    broadcast use vstd::seq_lib::lemma_seq_contains_after_push;

    let mut result: Vec<(CharacterId, CharacterId)> = Vec::new();
    let n = manager.characters.len();
    let mut i: usize = 0;
    while i < n
        invariant
            i <= n,
            n == manager.characters@.len(),
            manager.ids_consistent(),
            result@.no_duplicates(),
            forall|a: CharacterId, b: CharacterId|
                #[trigger] result@.contains((a, b)) <==> (a.0 <= b.0 && ((a.0 < i && manager.chr(
                    a,
                ).has_edge(RelationType::Spouse, b)) || (b.0 < i && manager.chr(b).has_edge(
                    RelationType::Spouse,
                    a,
                )))),
        decreases n - i,
    {
        let id = *(&manager.characters[i]).id();
        proof {
            assert(id.0 == i);
            assert(id == CharacterId(i));
        }
        let spouses = get_spouses(manager, id);
        let m = spouses.len();
        let mut j: usize = 0;
        while j < m
            invariant
                j <= m,
                m == spouses@.len(),
                i < n,
                n == manager.characters@.len(),
                manager.ids_consistent(),
                id == CharacterId(i),
                result@.no_duplicates(),
                forall|x: CharacterId| #[trigger] spouses@.contains(x) <==> manager.chr(
                    id,
                ).has_edge(RelationType::Spouse, x),
                forall|a: CharacterId, b: CharacterId|
                    #[trigger] result@.contains((a, b)) <==> (a.0 <= b.0 && ((a.0 < i
                        && manager.chr(a).has_edge(RelationType::Spouse, b)) || (b.0 < i
                        && manager.chr(b).has_edge(RelationType::Spouse, a)) || ((a == id || b
                        == id) && exists|l: int|
                        0 <= l < j && ((a == id && #[trigger] spouses@[l] == b) || (b == id
                            && spouses@[l] == a))))),
            decreases m - j,
        {
            let spouse = spouses[j];
            let pair = if id.id() < spouse.id() {
                (id, spouse)
            } else {
                (spouse, id)
            };
            let ghost result0 = result@;
            let mut already = false;
            let rn = result.len();
            let mut q: usize = 0;
            while q < rn
                invariant
                    q <= rn,
                    rn == result@.len(),
                    result@ == result0,
                    already == exists|p: int| 0 <= p < q && result0[p] == pair,
                decreases rn - q,
            {
                let entry = &result[q];
                if entry.0 == pair.0 && entry.1 == pair.1 {
                    proof {
                        assert(result0[q as int] == pair);
                    }
                    already = true;
                }
                q = q + 1;
            }
            proof {
                assert(already == result0.contains(pair));
            }
            if !already {
                result.push(pair);
            }
            proof {
                assert(spouses@[j as int] == spouse);
                assert(spouses@.contains(spouse));
                assert(manager.chr(id).has_edge(RelationType::Spouse, spouse));
                if !already {
                    assert(result@ == result0.push(pair));
                    vstd::seq_lib::lemma_seq_contains_after_push(result0, pair, pair);
                }
                assert(result@.contains(pair));
                assert forall|a: CharacterId, b: CharacterId|
                    #[trigger] result@.contains((a, b)) <==> (a.0 <= b.0 && ((a.0 < i
                        && manager.chr(a).has_edge(RelationType::Spouse, b)) || (b.0 < i
                        && manager.chr(b).has_edge(RelationType::Spouse, a)) || ((a == id || b
                        == id) && exists|l: int|
                        0 <= l < j + 1 && ((a == id && #[trigger] spouses@[l] == b) || (b == id
                            && spouses@[l] == a))))) by {
                    if !already {
                        vstd::seq_lib::lemma_seq_contains_after_push(result0, pair, (a, b));
                    }
                    if result@.contains((a, b)) && !result0.contains((a, b)) {
                        assert((a, b) == pair);
                        assert((a == id && spouses@[j as int] == b) || (b == id
                            && spouses@[j as int] == a));
                    }
                    if a.0 <= b.0 && ((a == id || b == id) && exists|l: int|
                        0 <= l < j + 1 && ((a == id && #[trigger] spouses@[l] == b) || (b == id
                            && spouses@[l] == a))) {
                        let l = choose|l: int|
                            0 <= l < j + 1 && ((a == id && #[trigger] spouses@[l] == b) || (b
                                == id && spouses@[l] == a));
                        if l == j {
                            assert((a, b) == pair || (a == b && a == id));
                            if a == b && a == id {
                                assert(pair == (id, id));
                            }
                            assert(result@.contains((a, b)));
                        }
                    }
                }
            }
            j = j + 1;
        }
        proof {
            assert forall|a: CharacterId, b: CharacterId|
                #[trigger] result@.contains((a, b)) <==> (a.0 <= b.0 && ((a.0 < i + 1
                    && manager.chr(a).has_edge(RelationType::Spouse, b)) || (b.0 < i + 1
                    && manager.chr(b).has_edge(RelationType::Spouse, a)))) by {
                if result@.contains((a, b)) {
                    if !(a.0 < i && manager.chr(a).has_edge(RelationType::Spouse, b)) && !(b.0
                        < i && manager.chr(b).has_edge(RelationType::Spouse, a)) {
                        let l = choose|l: int|
                            0 <= l < m && ((a == id && #[trigger] spouses@[l] == b) || (b == id
                                && spouses@[l] == a));
                        assert(spouses@.contains(spouses@[l]));
                    }
                }
                if a.0 <= b.0 && ((a.0 < i + 1 && manager.chr(a).has_edge(
                    RelationType::Spouse,
                    b,
                )) || (b.0 < i + 1 && manager.chr(b).has_edge(RelationType::Spouse, a))) {
                    if a.0 < i + 1 && manager.chr(a).has_edge(RelationType::Spouse, b) && !(a.0
                        < i) {
                        assert(a == id);
                        assert(spouses@.contains(b));
                        let l = choose|l: int| 0 <= l < m && spouses@[l] == b;
                    }
                    if b.0 < i + 1 && manager.chr(b).has_edge(RelationType::Spouse, a) && !(b.0
                        < i) {
                        assert(b == id);
                        assert(spouses@.contains(a));
                        let l = choose|l: int| 0 <= l < m && spouses@[l] == a;
                    }
                }
            }
        }
        i = i + 1;
    }
    result
}

} // verus!
