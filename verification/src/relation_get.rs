use vstd::prelude::*;
use crate::character::{CharacterId, CharacterMgr};
use crate::relation::{Relation, RelationType, RelativeType};

verus! {

/// The ids a character holds an edge of type `t` to, or the empty set
/// for an id the store does not know.
pub open spec fn rel_ids(m: CharacterMgr, id: CharacterId, t: RelationType) -> Set<CharacterId> {
    if m.valid(id) {
        m.chr(id).edge_ids(t)
    } else {
        Set::empty()
    }
}

/// The ids a character holds a blood-relation edge of any kind to.
pub open spec fn relative_ids(m: CharacterMgr, id: CharacterId) -> Set<CharacterId> {
    Set::new(
        |x: CharacterId|
            m.valid(id) && exists|rt: RelativeType|
                m.chr(id).has_edge(RelationType::Relative(rt), x),
    )
}

/// Whether the id list `ids` holds `id`.
pub fn contains_id(ids: &Vec<CharacterId>, id: CharacterId) -> (r: bool)
    ensures
        r == ids@.contains(id),
{
    let n = ids.len();
    let mut i: usize = 0;
    while i < n
        invariant
            i <= n,
            n == ids@.len(),
            forall|k: int| 0 <= k < i ==> ids@[k] != id,
        decreases n - i,
    {
        if ids[i] == id {
            return true;
        }
        i = i + 1;
    }
    false
}

/// Collect the targets of a character's edges of one type into a
/// duplicate-free id list.
pub fn get_direct_relation(
    manager: &CharacterMgr,
    character_id: CharacterId,
    relation_type: RelationType,
) -> (r: Vec<CharacterId>)
    ensures
        r@.no_duplicates(),
        forall|x: CharacterId| #[trigger] r@.contains(x) <==> rel_ids(
            *manager,
            character_id,
            relation_type,
        ).contains(x),
{
    let mut result: Vec<CharacterId> = Vec::new();
    if let Some(character) = manager.get(character_id) {
        let n = character.relations.len();
        let mut i: usize = 0;
        while i < n
            invariant
                i <= n,
                n == character.relations@.len(),
                *character == manager.chr(character_id),
                manager.valid(character_id),
                result@.no_duplicates(),
                forall|x: CharacterId| #[trigger] result@.contains(x) <==> exists|k: int|
                    0 <= k < i && character.relations@[k] == (Relation {
                        relation_type,
                        id: x,
                    }),
            decreases n - i,
        {
            let relation = character.relations[i];
            let ghost result0 = result@;
            let matched = relation.relation_type == relation_type && !contains_id(
                &result,
                relation.id,
            );
            if matched {
                result.push(relation.id);
            }
            proof {
                if matched {
                    assert forall|x: CharacterId| #[trigger] result@.contains(x) <==> (x
                        == relation.id || result0.contains(x)) by {
                        vstd::seq_lib::lemma_seq_contains_after_push(result0, relation.id, x);
                    }
                }
                assert forall|x: CharacterId| #[trigger] result@.contains(x) implies exists|k: int|
                    0 <= k < i + 1 && character.relations@[k] == (Relation {
                        relation_type,
                        id: x,
                    }) by {
                    if matched && x == relation.id {
                        assert(character.relations@[i as int] == (Relation {
                            relation_type,
                            id: x,
                        }));
                    } else {
                        assert(result0.contains(x));
                    }
                }
                assert forall|x: CharacterId|
                    (exists|k: int|
                        0 <= k < i + 1 && character.relations@[k] == (Relation {
                            relation_type,
                            id: x,
                        })) implies #[trigger] result@.contains(x) by {
                    let k = choose|k: int|
                        0 <= k < i + 1 && character.relations@[k] == (Relation {
                            relation_type,
                            id: x,
                        });
                    if k < i {
                        assert(result0.contains(x));
                    } else {
                        assert(x == relation.id && relation.relation_type == relation_type);
                        if !matched {
                            assert(result0.contains(x));
                        }
                    }
                }
            }
            i = i + 1;
        }
    }
    result
}

fn get_relative(
    manager: &CharacterMgr,
    character_id: CharacterId,
    relative_type: RelativeType,
) -> (r: Vec<CharacterId>)
    ensures
        r@.no_duplicates(),
        forall|x: CharacterId| #[trigger] r@.contains(x) <==> rel_ids(
            *manager,
            character_id,
            RelationType::Relative(relative_type),
        ).contains(x),
{
    get_direct_relation(manager, character_id, RelationType::Relative(relative_type))
}

pub fn get_children(manager: &CharacterMgr, character_id: CharacterId) -> (r: Vec<CharacterId>)
    ensures
        r@.no_duplicates(),
        forall|x: CharacterId| #[trigger] r@.contains(x) <==> rel_ids(
            *manager,
            character_id,
            RelationType::Relative(RelativeType::Child),
        ).contains(x),
{
    get_relative(manager, character_id, RelativeType::Child)
}

pub fn get_parents(manager: &CharacterMgr, character_id: CharacterId) -> (r: Vec<CharacterId>)
    ensures
        r@.no_duplicates(),
        forall|x: CharacterId| #[trigger] r@.contains(x) <==> rel_ids(
            *manager,
            character_id,
            RelationType::Relative(RelativeType::Parent),
        ).contains(x),
{
    get_relative(manager, character_id, RelativeType::Parent)
}

/// The targets of type `t` reachable from any member of `base`.
pub open spec fn targets_of_all(
    m: CharacterMgr,
    base: Set<CharacterId>,
    t: RelationType,
) -> Set<CharacterId> {
    Set::new(
        |x: CharacterId|
            exists|p: CharacterId| #[trigger] base.contains(p) && rel_ids(m, p, t).contains(x),
    )
}

/// The grandparents derived by traversal: the parents of each parent.
pub open spec fn grandparents_of(m: CharacterMgr, id: CharacterId) -> Set<CharacterId> {
    targets_of_all(
        m,
        rel_ids(m, id, RelationType::Relative(RelativeType::Parent)),
        RelationType::Relative(RelativeType::Parent),
    )
}

/// The siblings derived by traversal: the children of each parent, minus the
/// character itself.
pub open spec fn siblings_of(m: CharacterMgr, id: CharacterId) -> Set<CharacterId> {
    targets_of_all(
        m,
        rel_ids(m, id, RelationType::Relative(RelativeType::Parent)),
        RelationType::Relative(RelativeType::Child),
    ).remove(id)
}

/// The piblings derived by traversal: the siblings of each parent.
pub open spec fn piblings_of(m: CharacterMgr, id: CharacterId) -> Set<CharacterId> {
    Set::new(
        |x: CharacterId|
            exists|p: CharacterId|
                #[trigger] rel_ids(m, id, RelationType::Relative(RelativeType::Parent)).contains(
                    p,
                ) && siblings_of(m, p).contains(x),
    )
}

/// The cousins derived by traversal: the children of each pibling.
pub open spec fn cousins_of(m: CharacterMgr, id: CharacterId) -> Set<CharacterId> {
    targets_of_all(m, piblings_of(m, id), RelationType::Relative(RelativeType::Child))
}

/// The niblings derived by traversal: the children of each sibling.
pub open spec fn niblings_of(m: CharacterMgr, id: CharacterId) -> Set<CharacterId> {
    targets_of_all(m, siblings_of(m, id), RelationType::Relative(RelativeType::Child))
}

/// The grandchildren derived by traversal: the children of each child.
pub open spec fn grandchildren_of(m: CharacterMgr, id: CharacterId) -> Set<CharacterId> {
    targets_of_all(
        m,
        rel_ids(m, id, RelationType::Relative(RelativeType::Child)),
        RelationType::Relative(RelativeType::Child),
    )
}

/// The targets of type `t` of every member of `base`, as one
/// duplicate-free list.
fn collect_targets_of_all(
    manager: &CharacterMgr,
    base: &Vec<CharacterId>,
    relative_type: RelativeType,
) -> (r: Vec<CharacterId>)
    ensures
        r@.no_duplicates(),
        forall|x: CharacterId| #[trigger] r@.contains(x) <==> exists|k: int|
            0 <= k < base@.len() && rel_ids(
                *manager,
                #[trigger] base@[k],
                RelationType::Relative(relative_type),
            ).contains(x),
{
    let mr: &CharacterMgr = manager;
    let q = |p: CharacterId| -> (out: Vec<CharacterId>)
        ensures
            out@.no_duplicates(),
            forall|x: CharacterId| #[trigger] out@.contains(x) <==> rel_ids(
                *mr,
                p,
                RelationType::Relative(relative_type),
            ).contains(x),
        { get_direct_relation(mr, p, RelationType::Relative(relative_type)) };
    let r = combine(base, q);
    proof {
        let outs = choose|outs: Seq<Vec<CharacterId>>|
            #![trigger outs.len()]
            {
                &&& outs.len() == base@.len()
                &&& forall|i: int|
                    0 <= i < outs.len() ==> call_ensures(q, (base@[i],), #[trigger] outs[i])
                &&& forall|y: CharacterId| #[trigger] r@.contains(y) <==> exists|i: int|
                    0 <= i < outs.len() && (#[trigger] outs[i])@.contains(y)
            };
        assert forall|x: CharacterId| #[trigger] r@.contains(x) <==> exists|k: int|
            0 <= k < base@.len() && rel_ids(
                *manager,
                #[trigger] base@[k],
                RelationType::Relative(relative_type),
            ).contains(x) by {
            if r@.contains(x) {
                let i = choose|i: int| 0 <= i < outs.len() && (#[trigger] outs[i])@.contains(x);
                assert(rel_ids(
                    *manager,
                    base@[i],
                    RelationType::Relative(relative_type),
                ).contains(x));
            }
            if exists|k: int|
                0 <= k < base@.len() && rel_ids(
                    *manager,
                    #[trigger] base@[k],
                    RelationType::Relative(relative_type),
                ).contains(x) {
                let k = choose|k: int|
                    0 <= k < base@.len() && rel_ids(
                        *manager,
                        #[trigger] base@[k],
                        RelationType::Relative(relative_type),
                    ).contains(x);
                assert(outs[k]@.contains(x));
            }
        }
    }
    r
}

/// The grandparents of a character: the parents of each of its parents.
pub fn get_grandparents(manager: &CharacterMgr, character_id: CharacterId) -> (r: Vec<
    CharacterId,
>)
    ensures
        r@.no_duplicates(),
        forall|x: CharacterId| #[trigger] r@.contains(x) <==> grandparents_of(
            *manager,
            character_id,
        ).contains(x),
{
    let parents = get_parents(manager, character_id);
    let r = collect_targets_of_all(manager, &parents, RelativeType::Parent);
    proof {
        lemma_collected_union(
            *manager,
            parents@,
            r@,
            rel_ids(*manager, character_id, RelationType::Relative(RelativeType::Parent)),
            RelativeType::Parent,
        );
    }
    r
}

/// The siblings of a character: the children of each of its parents, minus
/// the character itself.
pub fn get_siblings(manager: &CharacterMgr, character_id: CharacterId) -> (r: Vec<CharacterId>)
    ensures
        r@.no_duplicates(),
        forall|x: CharacterId| #[trigger] r@.contains(x) <==> siblings_of(
            *manager,
            character_id,
        ).contains(x),
{
    let parents = get_parents(manager, character_id);
    let joined = collect_targets_of_all(manager, &parents, RelativeType::Child);
    proof {
        lemma_collected_union(
            *manager,
            parents@,
            joined@,
            rel_ids(*manager, character_id, RelationType::Relative(RelativeType::Parent)),
            RelativeType::Child,
        );
    }
    let mut result: Vec<CharacterId> = Vec::new();
    let n = joined.len();
    let mut i: usize = 0;
    while i < n
        invariant
            i <= n,
            n == joined@.len(),
            joined@.no_duplicates(),
            result@.no_duplicates(),
            forall|x: CharacterId| #[trigger] result@.contains(x) <==> ((exists|k: int|
                0 <= k < i && joined@[k] == x) && x != character_id),
        decreases n - i,
    {
        let candidate = joined[i];
        proof {
            assert(joined@[i as int] == candidate);
        }
        let ghost result0 = result@;
        let mut pushed = false;
        if candidate != character_id {
            proof {
                if result0.contains(candidate) {
                    let k = choose|k: int| 0 <= k < i && joined@[k] == candidate;
                    assert(joined@[k] == joined@[i as int]);
                }
            }
            result.push(candidate);
            pushed = true;
        }
        proof {
            assert forall|x: CharacterId| #[trigger] result@.contains(x) <==> ((exists|k: int|
                0 <= k < i + 1 && joined@[k] == x) && x != character_id) by {
                if pushed {
                    vstd::seq_lib::lemma_seq_contains_after_push(result0, candidate, x);
                }
                if result@.contains(x) && !result0.contains(x) {
                    assert(joined@[i as int] == x);
                }
                if (exists|k: int| 0 <= k < i + 1 && joined@[k] == x) && x != character_id {
                    let k = choose|k: int| 0 <= k < i + 1 && joined@[k] == x;
                    if k < i {
                        assert(result0.contains(x));
                    } else {
                        assert(joined@[i as int] == x);
                    }
                }
            }
        }
        i = i + 1;
    }
    proof {
        assert forall|x: CharacterId| #[trigger] result@.contains(x) <==> siblings_of(
            *manager,
            character_id,
        ).contains(x) by {
            if result@.contains(x) {
                let k = choose|k: int| 0 <= k < n && joined@[k] == x;
                assert(joined@.contains(x));
            }
            if siblings_of(*manager, character_id).contains(x) {
                assert(joined@.contains(x));
                let k = choose|k: int| 0 <= k < joined@.len() && joined@[k] == x;
            }
        }
    }
    result
}

/// The piblings of a character: the siblings of each of its parents.
pub fn get_piblings(manager: &CharacterMgr, character_id: CharacterId) -> (r: Vec<CharacterId>)
    ensures
        r@.no_duplicates(),
        forall|x: CharacterId| #[trigger] r@.contains(x) <==> piblings_of(
            *manager,
            character_id,
        ).contains(x),
{
    let parents = get_parents(manager, character_id);
    let mr: &CharacterMgr = manager;
    let q = |p: CharacterId| -> (out: Vec<CharacterId>)
        ensures
            out@.no_duplicates(),
            forall|x: CharacterId| #[trigger] out@.contains(x) <==> siblings_of(
                *mr,
                p,
            ).contains(x),
        { get_siblings(mr, p) };
    let r = combine(&parents, q);
    proof {
        let outs = choose|outs: Seq<Vec<CharacterId>>|
            #![trigger outs.len()]
            {
                &&& outs.len() == parents@.len()
                &&& forall|i: int|
                    0 <= i < outs.len() ==> call_ensures(q, (parents@[i],), #[trigger] outs[i])
                &&& forall|y: CharacterId| #[trigger] r@.contains(y) <==> exists|i: int|
                    0 <= i < outs.len() && (#[trigger] outs[i])@.contains(y)
            };
        assert forall|x: CharacterId| #[trigger] r@.contains(x) <==> piblings_of(
            *manager,
            character_id,
        ).contains(x) by {
            if r@.contains(x) {
                let i = choose|i: int| 0 <= i < outs.len() && (#[trigger] outs[i])@.contains(x);
                assert(parents@.contains(parents@[i]));
                assert(siblings_of(*manager, parents@[i]).contains(x));
            }
            if piblings_of(*manager, character_id).contains(x) {
                let p = choose|p: CharacterId|
                    #[trigger] rel_ids(
                        *manager,
                        character_id,
                        RelationType::Relative(RelativeType::Parent),
                    ).contains(p) && siblings_of(*manager, p).contains(x);
                assert(parents@.contains(p));
                let i = choose|i: int| 0 <= i < parents@.len() && parents@[i] == p;
                assert(outs[i]@.contains(x));
            }
        }
    }
    r
}

/// The cousins of a character: the children of each of its piblings.
pub fn get_cousins(manager: &CharacterMgr, character_id: CharacterId) -> (r: Vec<CharacterId>)
    ensures
        r@.no_duplicates(),
        forall|x: CharacterId| #[trigger] r@.contains(x) <==> cousins_of(
            *manager,
            character_id,
        ).contains(x),
{
    let piblings = get_piblings(manager, character_id);
    let r = collect_targets_of_all(manager, &piblings, RelativeType::Child);
    proof {
        lemma_collected_union(
            *manager,
            piblings@,
            r@,
            piblings_of(*manager, character_id),
            RelativeType::Child,
        );
    }
    r
}

/// The niblings of a character: the children of each of its siblings.
pub fn get_niblings(manager: &CharacterMgr, character_id: CharacterId) -> (r: Vec<CharacterId>)
    ensures
        r@.no_duplicates(),
        forall|x: CharacterId| #[trigger] r@.contains(x) <==> niblings_of(
            *manager,
            character_id,
        ).contains(x),
{
    let siblings = get_siblings(manager, character_id);
    let r = collect_targets_of_all(manager, &siblings, RelativeType::Child);
    proof {
        lemma_collected_union(
            *manager,
            siblings@,
            r@,
            siblings_of(*manager, character_id),
            RelativeType::Child,
        );
    }
    r
}

/// The grandchildren of a character: the children of each of its children.
pub fn get_grandchildren(manager: &CharacterMgr, character_id: CharacterId) -> (r: Vec<
    CharacterId,
>)
    ensures
        r@.no_duplicates(),
        forall|x: CharacterId| #[trigger] r@.contains(x) <==> grandchildren_of(
            *manager,
            character_id,
        ).contains(x),
{
    let children = get_children(manager, character_id);
    let r = collect_targets_of_all(manager, &children, RelativeType::Child);
    proof {
        lemma_collected_union(
            *manager,
            children@,
            r@,
            rel_ids(*manager, character_id, RelationType::Relative(RelativeType::Child)),
            RelativeType::Child,
        );
    }
    r
}

/// A collected list whose base list enumerates a base set holds exactly the
/// union of the targets of the base set's members.
proof fn lemma_collected_union(
    m: CharacterMgr,
    base: Seq<CharacterId>,
    collected: Seq<CharacterId>,
    base_set: Set<CharacterId>,
    relative_type: RelativeType,
)
    requires
        forall|x: CharacterId| #[trigger] base.contains(x) <==> base_set.contains(x),
        forall|x: CharacterId| #[trigger] collected.contains(x) <==> exists|k: int|
            0 <= k < base.len() && rel_ids(
                m,
                #[trigger] base[k],
                RelationType::Relative(relative_type),
            ).contains(x),
    ensures
        forall|x: CharacterId| #[trigger] collected.contains(x) <==> targets_of_all(
            m,
            base_set,
            RelationType::Relative(relative_type),
        ).contains(x),
{
    assert forall|x: CharacterId| #[trigger] collected.contains(x) <==> targets_of_all(
        m,
        base_set,
        RelationType::Relative(relative_type),
    ).contains(x) by {
        if collected.contains(x) {
            let k = choose|k: int|
                0 <= k < base.len() && rel_ids(
                    m,
                    #[trigger] base[k],
                    RelationType::Relative(relative_type),
                ).contains(x);
            assert(base.contains(base[k]));
            assert(base_set.contains(base[k]));
        }
        if targets_of_all(m, base_set, RelationType::Relative(relative_type)).contains(x) {
            let p = choose|p: CharacterId|
                #[trigger] base_set.contains(p) && rel_ids(
                    m,
                    p,
                    RelationType::Relative(relative_type),
                ).contains(x);
            assert(base.contains(p));
            let k = choose|k: int| 0 <= k < base.len() && base[k] == p;
        }
    }
}

pub fn get_spouses(manager: &CharacterMgr, character_id: CharacterId) -> (r: Vec<CharacterId>)
    ensures
        r@.no_duplicates(),
        forall|x: CharacterId| #[trigger] r@.contains(x) <==> rel_ids(
            *manager,
            character_id,
            RelationType::Spouse,
        ).contains(x),
{
    get_direct_relation(manager, character_id, RelationType::Spouse)
}

/// The children both characters have in common.
pub fn get_shared_children(
    manager: &CharacterMgr,
    character0: CharacterId,
    character1: CharacterId,
) -> (r: Vec<CharacterId>)
    ensures
        r@.no_duplicates(),
        forall|x: CharacterId| #[trigger] r@.contains(x) <==> rel_ids(
            *manager,
            character0,
            RelationType::Relative(RelativeType::Child),
        ).contains(x) && rel_ids(
            *manager,
            character1,
            RelationType::Relative(RelativeType::Child),
        ).contains(x),
{
    let children0 = get_children(manager, character0);
    let children1 = get_children(manager, character1);
    let mut result: Vec<CharacterId> = Vec::new();
    let n = children0.len();
    let mut i: usize = 0;
    while i < n
        invariant
            i <= n,
            n == children0@.len(),
            children0@.no_duplicates(),
            result@.no_duplicates(),
            forall|x: CharacterId| #[trigger] result@.contains(x) <==> exists|k: int|
                0 <= k < i && children0@[k] == x && children1@.contains(x),
        decreases n - i,
    {
        let child = children0[i];
        let ghost result0 = result@;
        let matched = contains_id(&children1, child);
        if matched {
            result.push(child);
        }
        proof {
            if matched {
                assert forall|x: CharacterId| #[trigger] result@.contains(x) <==> (x == child
                    || result0.contains(x)) by {
                    vstd::seq_lib::lemma_seq_contains_after_push(result0, child, x);
                }
                assert(!result0.contains(child)) by {
                    if result0.contains(child) {
                        let k = choose|k: int|
                            0 <= k < i && children0@[k] == child && children1@.contains(child);
                        assert(children0@[k] == children0@[i as int]);
                    }
                }
            }
            assert forall|x: CharacterId| #[trigger] result@.contains(x) implies exists|k: int|
                0 <= k < i + 1 && children0@[k] == x && children1@.contains(x) by {
                if matched && x == child {
                    assert(children0@[i as int] == x);
                } else {
                    assert(result0.contains(x));
                }
            }
            assert forall|x: CharacterId|
                (exists|k: int| 0 <= k < i + 1 && children0@[k] == x && children1@.contains(x))
                    implies #[trigger] result@.contains(x) by {
                let k = choose|k: int|
                    0 <= k < i + 1 && children0@[k] == x && children1@.contains(x);
                if k < i {
                    assert(result0.contains(x));
                } else {
                    assert(children0@[i as int] == x);
                }
            }
        }
        i = i + 1;
    }
    proof {
        assert forall|x: CharacterId| #[trigger] result@.contains(x) <==> rel_ids(
            *manager,
            character0,
            RelationType::Relative(RelativeType::Child),
        ).contains(x) && rel_ids(
            *manager,
            character1,
            RelationType::Relative(RelativeType::Child),
        ).contains(x) by {
            if result@.contains(x) {
                let k = choose|k: int|
                    0 <= k < n && children0@[k] == x && children1@.contains(x);
                assert(children0@.contains(x));
            }
            if children0@.contains(x) && children1@.contains(x) {
                let k = choose|k: int| 0 <= k < n && children0@[k] == x;
            }
        }
    }
    result
}

/// A character's in-law edges, in stored order.
pub fn get_relation_to_in_laws(manager: &CharacterMgr, character_id: CharacterId) -> (r: Vec<
    Relation,
>)
    requires
        manager.valid(character_id),
    ensures
        r@ == manager.chr(character_id).relations@.filter(
            |relation: Relation| relation.relation_type is InLaw,
        ),
{
    let character = &manager.characters[character_id.0];
    proof {
        assert(*character == manager.chr(character_id));
    }
    let mut result: Vec<Relation> = Vec::new();
    let n = character.relations.len();
    let mut i: usize = 0;
    while i < n
        invariant
            i <= n,
            n == character.relations@.len(),
            *character == manager.chr(character_id),
            result@ == character.relations@.take(i as int).filter(
                |relation: Relation| relation.relation_type is InLaw,
            ),
        decreases n - i,
    {
        let relation = character.relations[i];
        if relation.relation_type().is_in_law() {
            result.push(relation);
        }
        proof {
            let pred = |relation: Relation| relation.relation_type is InLaw;
            let s = character.relations@;
            assert(s.take(i + 1) =~= s.take(i as int).push(s[i as int]));
            s.take(i as int).lemma_filter_push(s[i as int], pred);
            assert(result@ == s.take(i + 1).filter(pred));
        }
        i = i + 1;
    }
    proof {
        assert(character.relations@.take(n as int) =~= character.relations@);
    }
    result
}

/// A character's blood-relation edges, in stored order.
pub fn get_relation_to_relatives(manager: &CharacterMgr, character_id: CharacterId) -> (r: Vec<
    Relation,
>)
    requires
        manager.valid(character_id),
    ensures
        r@ == manager.chr(character_id).relations@.filter(
            |relation: Relation| relation.relation_type is Relative,
        ),
{
    let character = &manager.characters[character_id.0];
    proof {
        assert(*character == manager.chr(character_id));
    }
    let mut result: Vec<Relation> = Vec::new();
    let n = character.relations.len();
    let mut i: usize = 0;
    while i < n
        invariant
            i <= n,
            n == character.relations@.len(),
            *character == manager.chr(character_id),
            result@ == character.relations@.take(i as int).filter(
                |relation: Relation| relation.relation_type is Relative,
            ),
        decreases n - i,
    {
        let relation = character.relations[i];
        if relation.relation_type().is_relative() {
            result.push(relation);
        }
        proof {
            let pred = |relation: Relation| relation.relation_type is Relative;
            let s = character.relations@;
            assert(s.take(i + 1) =~= s.take(i as int).push(s[i as int]));
            s.take(i as int).lemma_filter_push(s[i as int], pred);
            assert(result@ == s.take(i + 1).filter(pred));
        }
        i = i + 1;
    }
    proof {
        assert(character.relations@.take(n as int) =~= character.relations@);
    }
    result
}

/// The ids of all blood relatives, without duplicates.
pub fn get_relatives(manager: &CharacterMgr, character_id: CharacterId) -> (r: Vec<CharacterId>)
    requires
        manager.valid(character_id),
    ensures
        r@.no_duplicates(),
        forall|x: CharacterId| #[trigger] r@.contains(x) <==> relative_ids(
            *manager,
            character_id,
        ).contains(x),
{
    broadcast use vstd::seq_lib::lemma_seq_contains_after_push;

    let relations = get_relation_to_relatives(manager, character_id);
    let mut result: Vec<CharacterId> = Vec::new();
    let n = relations.len();
    let mut i: usize = 0;
    while i < n
        invariant
            i <= n,
            n == relations@.len(),
            relations@ == manager.chr(character_id).relations@.filter(
                |relation: Relation| relation.relation_type is Relative,
            ),
            result@.no_duplicates(),
            forall|x: CharacterId| #[trigger] result@.contains(x) <==> exists|k: int|
                0 <= k < i && relations@[k].id == x,
        decreases n - i,
    {
        let relation = relations[i];
        let ghost result0 = result@;
        let already = contains_id(&result, relation.id);
        if !already {
            result.push(relation.id);
        }
        proof {
            if !already {
                assert forall|x: CharacterId| #[trigger] result@.contains(x) <==> (x
                    == relation.id || result0.contains(x)) by {
                    vstd::seq_lib::lemma_seq_contains_after_push(result0, relation.id, x);
                }
            }
            assert(result@.contains(relation.id));
            assert forall|x: CharacterId| #[trigger] result@.contains(x) implies exists|k: int|
                0 <= k < i + 1 && relations@[k].id == x by {
                if x == relation.id {
                    assert(relations@[i as int].id == x);
                } else {
                    assert(result0.contains(x));
                }
            }
            assert forall|x: CharacterId| (exists|k: int| 0 <= k < i + 1 && relations@[k].id == x)
                implies #[trigger] result@.contains(x) by {
                let k = choose|k: int| 0 <= k < i + 1 && relations@[k].id == x;
                if k < i {
                    assert(result0.contains(x));
                } else {
                    assert(x == relation.id);
                }
            }
        }
        i = i + 1;
    }
    proof {
        let pred = |relation: Relation| relation.relation_type is Relative;
        let rels = manager.chr(character_id).relations@;
        let filtered = rels.filter(pred);
        assert forall|x: CharacterId| #[trigger] result@.contains(x) <==> relative_ids(
            *manager,
            character_id,
        ).contains(x) by {
            if result@.contains(x) {
                let k = choose|k: int| 0 <= k < n && filtered[k].id == x;
                assert(filtered[k] == filtered.index(k));
                assert(filtered.contains(filtered[k]));
                rels.lemma_filter_pred(pred, k);
                rels.lemma_filter_contains_rev(pred, filtered[k]);
                let j = choose|j: int| 0 <= j < rels.len() && rels[j] == filtered[k];
                let rt = filtered[k].relation_type->Relative_0;
                assert(rels[j] == (Relation { relation_type: RelationType::Relative(rt), id: x }));
                assert(manager.chr(character_id).has_edge(RelationType::Relative(rt), x));
            }
            if relative_ids(*manager, character_id).contains(x) {
                let rt = choose|rt: RelativeType|
                    manager.chr(character_id).has_edge(RelationType::Relative(rt), x);
                let j = choose|j: int|
                    0 <= j < rels.len() && rels[j] == (Relation {
                        relation_type: RelationType::Relative(rt),
                        id: x,
                    });
                rels.lemma_filter_contains(pred, j);
                assert(filtered.contains(rels[j]));
                let k = choose|k: int| 0 <= k < filtered.len() && filtered[k] == rels[j];
                assert(relations@[k].id == x);
            }
        }
    }
    result
}

/// Apply a one-id query across a set of ids and take the union of the results.
/// The result is pinned up to what the query itself promises: some sequence of
/// query outputs, one per input id, whose union the returned list holds.
pub fn combine<F: Fn(CharacterId) -> Vec<CharacterId>>(
    character_ids: &Vec<CharacterId>,
    f: F,
) -> (r: Vec<CharacterId>)
    requires
        forall|id: CharacterId|
            character_ids@.contains(id) ==> call_requires(f, (id,)),
    ensures
        r@.no_duplicates(),
        exists|outs: Seq<Vec<CharacterId>>|
            {
                &&& #[trigger] outs.len() == character_ids@.len()
                &&& forall|i: int|
                    0 <= i < outs.len() ==> call_ensures(
                        f,
                        (character_ids@[i],),
                        #[trigger] outs[i],
                    )
                &&& forall|x: CharacterId| #[trigger] r@.contains(x) <==> exists|i: int|
                    0 <= i < outs.len() && (#[trigger] outs[i])@.contains(x)
            },
{
    broadcast use vstd::seq_lib::lemma_seq_contains_after_push;

    let mut result: Vec<CharacterId> = Vec::new();
    let ghost mut outs: Seq<Vec<CharacterId>> = Seq::empty();
    let n = character_ids.len();
    let mut i: usize = 0;
    while i < n
        invariant
            i <= n,
            n == character_ids@.len(),
            forall|id: CharacterId|
                character_ids@.contains(id) ==> call_requires(f, (id,)),
            result@.no_duplicates(),
            outs.len() == i,
            forall|k: int|
                0 <= k < i ==> call_ensures(f, (character_ids@[k],), #[trigger] outs[k]),
            forall|x: CharacterId| #[trigger] result@.contains(x) <==> exists|k: int|
                0 <= k < i && (#[trigger] outs[k])@.contains(x),
        decreases n - i,
    {
        let id = character_ids[i];
        assert(character_ids@.contains(id));
        let out = f(id);
        let m = out.len();
        let mut j: usize = 0;
        while j < m
            invariant
                j <= m,
                m == out@.len(),
                outs.len() == i,
                i < n,
                n == character_ids@.len(),
                forall|id: CharacterId|
                    character_ids@.contains(id) ==> call_requires(f, (id,)),
                forall|k: int|
                    0 <= k < i ==> call_ensures(f, (character_ids@[k],), #[trigger] outs[k]),
                call_ensures(f, (character_ids@[i as int],), out),
                result@.no_duplicates(),
                forall|x: CharacterId| #[trigger] result@.contains(x) <==> (exists|k: int|
                    0 <= k < i && (#[trigger] outs[k])@.contains(x)) || exists|l: int|
                    0 <= l < j && out@[l] == x,
            decreases m - j,
        {
            let x = out[j];
            let ghost result0 = result@;
            let already = contains_id(&result, x);
            if !already {
                result.push(x);
            }
            proof {
                if !already {
                    assert forall|y: CharacterId| #[trigger] result@.contains(y) <==> (y == x
                        || result0.contains(y)) by {
                        vstd::seq_lib::lemma_seq_contains_after_push(result0, x, y);
                    }
                }
                assert(result@.contains(x));
                assert forall|y: CharacterId| #[trigger] result@.contains(y) implies ((exists|
                    k: int,
                |
                    0 <= k < i && (#[trigger] outs[k])@.contains(y)) || exists|l: int|
                    0 <= l < j + 1 && out@[l] == y) by {
                    if y == x {
                        assert(out@[j as int] == y);
                    } else {
                        assert(result0.contains(y));
                    }
                }
                assert forall|y: CharacterId|
                    ((exists|k: int| 0 <= k < i && (#[trigger] outs[k])@.contains(y)) || exists|
                        l: int,
                    |
                        0 <= l < j + 1 && out@[l] == y) implies #[trigger] result@.contains(y) by {
                    if exists|l: int| 0 <= l < j + 1 && out@[l] == y {
                        let l = choose|l: int| 0 <= l < j + 1 && out@[l] == y;
                        if l < j {
                            assert(result0.contains(y));
                        } else {
                            assert(out@[j as int] == y);
                        }
                    } else {
                        assert(result0.contains(y));
                    }
                }
            }
            j = j + 1;
        }
        proof {
            let outs0 = outs;
            outs = outs.push(out);
            assert(outs[i as int] == out);
            assert(forall|k: int| 0 <= k < i ==> outs[k] == outs0[k]);
            assert forall|x: CharacterId| #[trigger] result@.contains(x) <==> exists|k: int|
                0 <= k < i + 1 && (#[trigger] outs[k])@.contains(x) by {
                if result@.contains(x) {
                    if exists|k: int| 0 <= k < i && (#[trigger] outs0[k])@.contains(x) {
                        let k = choose|k: int|
                            0 <= k < i && (#[trigger] outs0[k])@.contains(x);
                        assert(outs[k] == outs0[k]);
                        assert((outs[k])@.contains(x));
                    } else {
                        let l = choose|l: int| 0 <= l < out@.len() && out@[l] == x;
                        assert((outs[i as int])@.contains(x));
                    }
                }
                if exists|k: int| 0 <= k < i + 1 && (#[trigger] outs[k])@.contains(x) {
                    let k = choose|k: int| 0 <= k < i + 1 && (#[trigger] outs[k])@.contains(x);
                    if k < i {
                        assert(outs0[k] == outs[k]);
                        assert((outs0[k])@.contains(x));
                        assert(result@.contains(x));
                    } else {
                        assert(out@.contains(x));
                        let l = choose|l: int| 0 <= l < out@.len() && out@[l] == x;
                        assert(result@.contains(x));
                    }
                }
            }
        }
        i = i + 1;
    }
    result
}

} // verus!
