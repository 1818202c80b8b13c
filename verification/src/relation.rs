use vstd::prelude::*;
use crate::character::CharacterId;
use crate::gender::Gender;

verus! {

/// A blood-relation kind between two characters.
#[derive(Copy, Clone, Debug, PartialEq, Eq, PartialOrd, Ord, Hash, Structural)]
pub enum RelativeType {
    GrandParent,
    /// Uncle or aunt.
    Pibling,
    /// Nephew or niece.
    Nibling,
    Parent,
    Cousin,
    Sibling,
    Child,
    GrandChild,
}

impl RelativeType {
    /// The kind that the target of an edge of this kind holds back to the source.
    pub open spec fn spec_reverse(&self) -> RelativeType {
        match self {
            RelativeType::GrandParent => RelativeType::GrandChild,
            RelativeType::Pibling => RelativeType::Nibling,
            RelativeType::Nibling => RelativeType::Pibling,
            RelativeType::Parent => RelativeType::Child,
            RelativeType::Cousin => RelativeType::Cousin,
            RelativeType::Sibling => RelativeType::Sibling,
            RelativeType::Child => RelativeType::Parent,
            RelativeType::GrandChild => RelativeType::GrandParent,
        }
    }

    #[verifier::when_used_as_spec(spec_reverse)]
    pub fn reverse(&self) -> (r: Self)
        ensures
            r == self.spec_reverse(),
    {
        match self {
            RelativeType::GrandParent => RelativeType::GrandChild,
            RelativeType::Pibling => RelativeType::Nibling,
            RelativeType::Nibling => RelativeType::Pibling,
            RelativeType::Parent => RelativeType::Child,
            RelativeType::Cousin => RelativeType::Cousin,
            RelativeType::Sibling => RelativeType::Sibling,
            RelativeType::Child => RelativeType::Parent,
            RelativeType::GrandChild => RelativeType::GrandParent,
        }
    }

    /// The word for a relative of this kind and gender.
    pub open spec fn spec_word(self, gender: Gender) -> Seq<char> {
        if gender == Gender::Male {
            match self {
                RelativeType::GrandParent => "grandfather"@,
                RelativeType::Pibling => "uncle"@,
                RelativeType::Nibling => "nephew"@,
                RelativeType::Parent => "father"@,
                RelativeType::Cousin => "cousin"@,
                RelativeType::Sibling => "brother"@,
                RelativeType::Child => "son"@,
                RelativeType::GrandChild => "grandson"@,
            }
        } else {
            match self {
                RelativeType::GrandParent => "grandmother"@,
                RelativeType::Pibling => "aunt"@,
                RelativeType::Nibling => "niece"@,
                RelativeType::Parent => "mother"@,
                RelativeType::Cousin => "cousin"@,
                RelativeType::Sibling => "sister"@,
                RelativeType::Child => "daughter"@,
                RelativeType::GrandChild => "granddaughter"@,
            }
        }
    }

    pub fn get_gender_specific_string(&self, gender: Gender) -> (r: &'static str)
        ensures
            r@ == self.spec_word(gender),
    {
        if gender == Gender::Male {
            match self {
                RelativeType::GrandParent => "grandfather",
                RelativeType::Pibling => "uncle",
                RelativeType::Nibling => "nephew",
                RelativeType::Parent => "father",
                RelativeType::Cousin => "cousin",
                RelativeType::Sibling => "brother",
                RelativeType::Child => "son",
                RelativeType::GrandChild => "grandson",
            }
        } else {
            match self {
                RelativeType::GrandParent => "grandmother",
                RelativeType::Pibling => "aunt",
                RelativeType::Nibling => "niece",
                RelativeType::Parent => "mother",
                RelativeType::Cousin => "cousin",
                RelativeType::Sibling => "sister",
                RelativeType::Child => "daughter",
                RelativeType::GrandChild => "granddaughter",
            }
        }
    }
}

/// Reversing a relative kind twice yields the kind itself.
pub proof fn lemma_relative_reverse_involution(t: RelativeType)
    ensures
        t.spec_reverse().spec_reverse() == t,
{
}

/// How one character is related to another: by blood, by marriage,
/// or through a spouse's blood relation.
#[derive(Copy, Clone, Debug, PartialEq, Eq, PartialOrd, Ord, Hash, Structural)]
pub enum RelationType {
    InLaw(RelativeType),
    Relative(RelativeType),
    Spouse,
}

impl RelationType {
    /// The type that the target of an edge of this type holds back to the source.
    pub open spec fn spec_reverse(&self) -> RelationType {
        match self {
            RelationType::InLaw(relative_type) => RelationType::InLaw(relative_type.spec_reverse()),
            RelationType::Relative(relative_type) => RelationType::Relative(
                relative_type.spec_reverse(),
            ),
            RelationType::Spouse => RelationType::Spouse,
        }
    }

    #[verifier::when_used_as_spec(spec_reverse)]
    pub fn reverse(&self) -> (r: Self)
        ensures
            r == self.spec_reverse(),
    {
        match self {
            RelationType::InLaw(relative_type) => RelationType::InLaw(relative_type.reverse()),
            RelationType::Relative(relative_type) => RelationType::Relative(
                relative_type.reverse(),
            ),
            RelationType::Spouse => RelationType::Spouse,
        }
    }

    pub open spec fn spec_is_in_law(&self) -> bool {
        self is InLaw
    }

    #[verifier::when_used_as_spec(spec_is_in_law)]
    pub fn is_in_law(&self) -> (r: bool)
        ensures
            r == self.spec_is_in_law(),
    {
        matches!(self, RelationType::InLaw(..))
    }

    pub open spec fn spec_is_relative(&self) -> bool {
        self is Relative
    }

    #[verifier::when_used_as_spec(spec_is_relative)]
    pub fn is_relative(&self) -> (r: bool)
        ensures
            r == self.spec_is_relative(),
    {
        matches!(self, RelationType::Relative(..))
    }

    /// The word for a relation of this type and gender.
    pub open spec fn spec_word(self, gender: Gender) -> Seq<char> {
        match self {
            RelationType::InLaw(relative_type) => relative_type.spec_word(gender) + "-in-law"@,
            RelationType::Relative(relative_type) => relative_type.spec_word(gender),
            RelationType::Spouse => if gender == Gender::Male {
                "husband"@
            } else {
                "wife"@
            },
        }
    }

    pub fn get_gender_specific_string(&self, gender: Gender) -> (r: String)
        ensures
            r@ == self.spec_word(gender),
    {
        match self {
            RelationType::InLaw(relative_type) => {
                let base = relative_type.get_gender_specific_string(gender);
                let mut text = base.to_owned();
                text.append("-in-law");
                text
            },
            RelationType::Relative(relative_type) => {
                relative_type.get_gender_specific_string(gender).to_owned()
            },
            RelationType::Spouse => {
                if gender == Gender::Male {
                    "husband"
                } else {
                    "wife"
                }.to_owned()
            },
        }
    }
}

/// Reversing a relation type twice yields the type itself.
pub proof fn lemma_reverse_involution(t: RelationType)
    ensures
        t.spec_reverse().spec_reverse() == t,
{
}

/// A directed relation edge: the target `id` stands in relation
/// `relation_type` to the character that stores the edge.
#[derive(Copy, Clone, Debug, PartialEq, Eq, Hash, Structural)]
pub struct Relation {
    pub relation_type: RelationType,
    pub id: CharacterId,
}

impl Relation {
    pub fn new(relation_type: RelationType, id: CharacterId) -> (r: Self)
        ensures
            r == (Relation { relation_type, id }),
    {
        Relation { relation_type, id }
    }

    pub fn relation_type(&self) -> (r: &RelationType)
        ensures
            *r == self.relation_type,
    {
        &self.relation_type
    }

    pub fn id(&self) -> (r: &CharacterId)
        ensures
            *r == self.id,
    {
        &self.id
    }

    /// The in-law edge that mirrors a blood-relation edge, if this is one.
    pub fn to_in_law(&self) -> (r: Option<Self>)
        ensures
            r == match self.relation_type {
                RelationType::Relative(relative_type) => Some(
                    Relation { relation_type: RelationType::InLaw(relative_type), id: self.id },
                ),
                _ => None::<Relation>,
            },
    {
        match self.relation_type {
            RelationType::Relative(relative_type) => Some(
                Relation::new(RelationType::InLaw(relative_type), self.id),
            ),
            _ => None,
        }
    }
}

} // verus!
