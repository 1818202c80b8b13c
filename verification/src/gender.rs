use vstd::prelude::*;

verus! {

/// The binary gender enumeration used by the simulation.
#[derive(Copy, Clone, Debug, PartialEq, Eq, Structural)]
pub enum Gender {
    Male,
    Female,
}

impl Gender {
    /// The other gender.
    pub open spec fn spec_reverse(&self) -> Gender {
        match self {
            Gender::Male => Gender::Female,
            Gender::Female => Gender::Male,
        }
    }

    #[verifier::when_used_as_spec(spec_reverse)]
    pub fn reverse(&self) -> (r: Gender)
        ensures
            r == self.spec_reverse(),
    {
        match self {
            Gender::Male => Gender::Female,
            Gender::Female => Gender::Male,
        }
    }

    /// Whether `gender` is the other gender than `self`.
    pub fn is_reverse(&self, gender: Gender) -> (r: bool)
        ensures
            r == (gender == self.spec_reverse()),
    {
        self.reverse() == gender
    }
}

impl Default for Gender {
    /// Records created by the store start out male until a caller sets the gender.
    fn default() -> (r: Self)
        ensures
            r == Gender::Male,
    {
        Gender::Male
    }
}

} // verus!
