use vstd::prelude::*;
use crate::character::{CharacterId, CharacterMgr};
use crate::relation::{Relation, RelationType};

verus! {

/// The type of the first stored edge towards `to`, if any.
pub open spec fn spec_first_relation_to(rels: Seq<Relation>, to: CharacterId) -> Option<
    RelationType,
>
    decreases rels.len(),
{
    if rels.len() == 0 {
        None
    } else if rels[0].id == to {
        Some(rels[0].relation_type)
    } else {
        spec_first_relation_to(rels.drop_first(), to)
    }
}

/// How `from` is related to `to`: the type of the first edge towards `to`,
/// or nothing when the two are unrelated or `from` is unknown.
pub fn get_relation(manager: &CharacterMgr, from: CharacterId, to: CharacterId) -> (r: Option<
    RelationType,
>)
    ensures
        r == if manager.valid(from) {
            spec_first_relation_to(manager.chr(from).relations@, to)
        } else {
            None::<RelationType>
        },
{
    if from.id() >= manager.characters.len() {
        return None;
    }
    let character = &manager.characters[from.0];
    let n = character.relations.len();
    let mut i: usize = 0;
    proof {
        assert(character.relations@.skip(0) =~= character.relations@);
    }
    while i < n
        invariant
            i <= n,
            n == character.relations@.len(),
            *character == manager.chr(from),
            manager.valid(from),
            spec_first_relation_to(character.relations@, to) == spec_first_relation_to(
                character.relations@.skip(i as int),
                to,
            ),
        decreases n - i,
    {
        let relation = character.relations[i];
        proof {
            assert(character.relations@.skip(i as int)[0] == character.relations@[i as int]);
        }
        if relation.id == to {
            return Some(relation.relation_type);
        }
        proof {
            assert(character.relations@.skip(i as int).drop_first() =~= character.relations@.skip(
                i + 1,
            ));
        }
        i = i + 1;
    }
    proof {
        assert(character.relations@.skip(n as int).len() == 0);
    }
    None
}

/// Whether the two characters are related by any stored edge.
pub fn is_relative(manager: &CharacterMgr, id0: CharacterId, id1: CharacterId) -> (r: bool)
    ensures
        r == (manager.valid(id0) && spec_first_relation_to(
            manager.chr(id0).relations@,
            id1,
        ) is Some),
{
    get_relation(manager, id0, id1).is_some()
}

} // verus!
