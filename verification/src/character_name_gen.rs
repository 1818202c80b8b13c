use vstd::prelude::*;
use vstd::string::StringExecFns;
use crate::character::{CharacterId, CharacterMgr};
use crate::character_name::{CharacterName, NameView};
use crate::gender::Gender;
use crate::name_gen::{spec_pick, NameGenerator};
use crate::relation::{RelationType, RelativeType};
use crate::relation_get::{get_parents, rel_ids};

verus! {

/// The table index a character id selects: the id folded into thirty-two
/// bits and spread by a fixed factor, wrapping.
pub open spec fn spec_name_index(id: CharacterId) -> u32 {
    vstd::wrapping::u32_specs::wrapping_mul(((id.0 as u64) % 0x100000000) as u32, 1000000u32)
}

/// The first name the generator yields for a character: picked from the
/// table of the character's gender.
pub open spec fn spec_first_name(
    g: CharacterNameGenerator,
    m: CharacterMgr,
    id: CharacterId,
) -> Seq<char> {
    let table = if m.chr(id).gender == Gender::Male {
        g.male_names
    } else {
        g.female_names
    };
    spec_pick(table.entries@, spec_name_index(id) % table.total_value)
}

/// What a valid last name for a character is: a parent's recorded last name,
/// or, when no parent has one, a name picked from the family table.
pub open spec fn spec_family_name_ok(
    g: CharacterNameGenerator,
    m: CharacterMgr,
    id: CharacterId,
    last: Seq<char>,
) -> bool {
    ||| exists|p: CharacterId|
        #[trigger] rel_ids(m, id, RelationType::Relative(RelativeType::Parent)).contains(p)
            && m.chr(p).name@.spec_last() == Some(last)
    ||| ((forall|p: CharacterId|
        #[trigger] rel_ids(m, id, RelationType::Relative(RelativeType::Parent)).contains(p)
            ==> m.chr(p).name@.spec_last() is None) && last == spec_pick(
        g.family_names.entries@,
        spec_name_index(id) % g.family_names.total_value,
    ))
}

/// Weighted tables for male first names, female first names and family names.
#[derive(Debug)]
pub struct CharacterNameGenerator {
    pub male_names: NameGenerator,
    pub female_names: NameGenerator,
    pub family_names: NameGenerator,
}

impl CharacterNameGenerator {
    pub fn new(
        male_names: NameGenerator,
        female_names: NameGenerator,
        family_names: NameGenerator,
    ) -> (r: Self)
        ensures
            r == (CharacterNameGenerator { male_names, female_names, family_names }),
    {
        CharacterNameGenerator { male_names, female_names, family_names }
    }

    /// A full name for the character: gendered first name from the tables,
    /// last name inherited from a parent where one carries one.
    pub fn generate(&self, manager: &CharacterMgr, id: CharacterId) -> (r: CharacterName)
        requires
            manager.wf(),
            manager.valid(id),
            self.male_names.total_value > 0,
            self.female_names.total_value > 0,
            self.family_names.total_value > 0,
        ensures
            r@ matches NameView::Standard { first, last } && first == spec_first_name(
                *self,
                *manager,
                id,
            ) && spec_family_name_ok(*self, *manager, id, last),
    {
        let first_name = self.generate_first(manager, id);
        let family_name = self.generate_family(manager, id);
        CharacterName::standard(first_name, family_name.as_str())
    }

    fn generate_first<'a>(&'a self, manager: &CharacterMgr, id: CharacterId) -> (r: &'a str)
        requires
            manager.valid(id),
            self.male_names.total_value > 0,
            self.female_names.total_value > 0,
        ensures
            r@ == spec_first_name(*self, *manager, id),
    {
        let character = &manager.characters[id.0];
        self.generate_name(
            if character.gender() == &Gender::Male {
                &self.male_names
            } else {
                &self.female_names
            },
            id,
        )
    }

    fn generate_family(&self, manager: &CharacterMgr, id: CharacterId) -> (r: String)
        requires
            manager.wf(),
            manager.valid(id),
            self.family_names.total_value > 0,
        ensures
            spec_family_name_ok(*self, *manager, id, r@),
    {
        let parents = get_parents(manager, id);
        let n = parents.len();
        let mut i: usize = 0;
        while i < n
            invariant
                i <= n,
                n == parents@.len(),
                manager.wf(),
                manager.valid(id),
                forall|x: CharacterId| #[trigger] parents@.contains(x) <==> rel_ids(
                    *manager,
                    id,
                    RelationType::Relative(RelativeType::Parent),
                ).contains(x),
                forall|k: int|
                    0 <= k < i ==> manager.chr(#[trigger] parents@[k]).name@.spec_last() is None,
            decreases n - i,
        {
            let parent_id = parents[i];
            proof {
                assert(parents@.contains(parent_id));
                crate::birth::lemma_parent_valid(*manager, id, parent_id);
            }
            let parent = &manager.characters[parent_id.0];
            if let Some(last) = parent.name().get_last() {
                proof {
                    assert(manager.chr(parent_id).name@.spec_last() == Some(last@));
                }
                return String::from_str(last);
            }
            i = i + 1;
        }
        proof {
            assert forall|p: CharacterId|
                #[trigger] rel_ids(*manager, id, RelationType::Relative(
                    RelativeType::Parent,
                )).contains(p) implies manager.chr(p).name@.spec_last() is None by {
                assert(parents@.contains(p));
                let k = choose|k: int| 0 <= k < parents@.len() && parents@[k] == p;
            }
        }
        String::from_str(self.generate_name(&self.family_names, id))
    }

    fn generate_name<'a>(&'a self, generator: &'a NameGenerator, id: CharacterId) -> (r: &'a str)
        requires
            generator.total_value > 0,
        ensures
            r@ == spec_pick(
                generator.entries@,
                spec_name_index(id) % generator.total_value,
            ),
    {
        let idx: u32 = ((id.id() as u64) % 0x100000000) as u32;
        let selector = idx.wrapping_mul(1000000);
        proof {
            assert(selector == spec_name_index(id));
        }
        generator.get(selector)
    }
}

} // verus!
