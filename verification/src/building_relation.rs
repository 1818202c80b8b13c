use vstd::prelude::*;
use crate::building::BuildingId;

verus! {

/// How a character is tied to a building.
#[derive(Copy, Clone, Debug, PartialEq, Eq, PartialOrd, Ord, Hash, Structural)]
pub enum BuildingRelationType {
    Builder,
    Owner,
    ExOwner,
    Occupant,
}

/// A directed edge from a character to a building.
#[derive(Copy, Clone, Debug, PartialEq, Eq, Hash, Structural)]
pub struct BuildingRelation {
    pub relation_type: BuildingRelationType,
    pub id: BuildingId,
}

impl BuildingRelation {
    pub fn new(relation_type: BuildingRelationType, id: BuildingId) -> (r: Self)
        ensures
            r == (BuildingRelation { relation_type, id }),
    {
        BuildingRelation { relation_type, id }
    }

    pub fn relation_type(&self) -> (r: &BuildingRelationType)
        ensures
            *r == self.relation_type,
    {
        &self.relation_type
    }

    pub fn id(&self) -> (r: &BuildingId)
        ensures
            *r == self.id,
    {
        &self.id
    }
}

} // verus!
