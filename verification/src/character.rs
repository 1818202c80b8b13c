use vstd::prelude::*;
use crate::building::BuildingId;
use crate::building_relation::{BuildingRelation, BuildingRelationType};
use crate::character_name::{CharacterName, NameView};
use crate::gender::Gender;
use crate::relation::{Relation, RelationType};
use crate::time::Date;

verus! {

/// A stable handle for a character record; handles are issued sequentially
/// by the store and are never reused.
#[derive(Copy, Clone, Debug, PartialEq, Eq, Hash, Structural)]
pub struct CharacterId(pub usize);

impl CharacterId {
    pub fn new(id: usize) -> (r: Self)
        ensures
            r.0 == id,
    {
        CharacterId(id)
    }

    pub fn id(&self) -> (r: usize)
        ensures
            r == self.0,
    {
        self.0
    }
}

/// The decimal digit for a value below ten.
pub open spec fn spec_dec_digit(d: nat) -> char {
    if d == 0 {
        '0'
    } else if d == 1 {
        '1'
    } else if d == 2 {
        '2'
    } else if d == 3 {
        '3'
    } else if d == 4 {
        '4'
    } else if d == 5 {
        '5'
    } else if d == 6 {
        '6'
    } else if d == 7 {
        '7'
    } else if d == 8 {
        '8'
    } else {
        '9'
    }
}

/// The decimal representation of a number, most significant digit first.
pub open spec fn spec_dec(n: nat) -> Seq<char>
    decreases n,
{
    if n < 10 {
        seq![spec_dec_digit(n)]
    } else {
        spec_dec(n / 10).push(spec_dec_digit(n % 10))
    }
}

/// Relies on `usize::to_string`: the decimal representation of the number.
#[verifier::external_body]
fn usize_to_string(n: usize) -> (r: String)
    ensures
        r@ == spec_dec(n as nat),
{
    n.to_string()
}

/// One inhabitant of the town: identity, name, gender, dates, and the
/// unordered edge lists tying it to other characters and to buildings.
#[derive(Clone, Debug, PartialEq)]
pub struct Character {
    pub id: CharacterId,
    pub name: CharacterName,
    pub gender: Gender,
    pub birth_date: Date,
    pub death_date: Option<Date>,
    pub relations: Vec<Relation>,
    pub building_relations: Vec<BuildingRelation>,
}

impl Character {
    /// Whether this character holds the relation edge (`t`, `id`).
    pub open spec fn has_edge(self, t: RelationType, id: CharacterId) -> bool {
        exists|k: int|
            0 <= k < self.relations@.len() && self.relations@[k] == (Relation {
                relation_type: t,
                id,
            })
    }

    /// All ids this character holds an edge of type `t` to.
    pub open spec fn edge_ids(self, t: RelationType) -> Set<CharacterId> {
        Set::new(|id: CharacterId| self.has_edge(t, id))
    }

    /// Whether this character holds the building edge (`t`, `id`).
    pub open spec fn has_building_edge(self, t: BuildingRelationType, id: BuildingId) -> bool {
        exists|k: int|
            0 <= k < self.building_relations@.len() && self.building_relations@[k]
                == (BuildingRelation { relation_type: t, id })
    }

    /// All building ids this character holds an edge of type `t` to.
    pub open spec fn building_edge_ids(self, t: BuildingRelationType) -> Set<BuildingId> {
        Set::new(|id: BuildingId| self.has_building_edge(t, id))
    }

    pub open spec fn spec_is_alive(self) -> bool {
        self.death_date is None
    }

    /// A fresh record: labelled by its id, male, born at year zero, alive,
    /// and without any relation edges.
    pub fn new(id: CharacterId) -> (r: Self)
        ensures
            r.id == id,
            r.name@ == NameView::Simple(spec_dec(id.0 as nat)),
            r.gender == Gender::Male,
            r.birth_date.0 == 0,
            r.death_date is None,
            r.relations@ =~= Seq::<Relation>::empty(),
            r.building_relations@ =~= Seq::<BuildingRelation>::empty(),
    {
        Character {
            id,
            name: CharacterName::Simple(usize_to_string(id.0)),
            gender: Gender::default(),
            birth_date: Date::default(),
            death_date: None,
            relations: Vec::new(),
            building_relations: Vec::new(),
        }
    }

    pub fn id(&self) -> (r: &CharacterId)
        ensures
            *r == self.id,
    {
        &self.id
    }

    pub fn name(&self) -> (r: &CharacterName)
        ensures
            *r == self.name,
    {
        &self.name
    }

    pub fn gender(&self) -> (r: &Gender)
        ensures
            *r == self.gender,
    {
        &self.gender
    }

    pub fn birth_date(&self) -> (r: &Date)
        ensures
            *r == self.birth_date,
    {
        &self.birth_date
    }

    pub fn death_date(&self) -> (r: &Option<Date>)
        ensures
            *r == self.death_date,
    {
        &self.death_date
    }

    pub fn relations(&self) -> (r: &Vec<Relation>)
        ensures
            *r == self.relations,
    {
        &self.relations
    }

    pub fn building_relations(&self) -> (r: &Vec<BuildingRelation>)
        ensures
            *r == self.building_relations,
    {
        &self.building_relations
    }

    pub fn set_name(&mut self, name: CharacterName)
        ensures
            *final(self) == (Character { name, ..*old(self) }),
    {
        self.name = name;
    }

    pub fn set_gender(&mut self, gender: Gender)
        ensures
            *final(self) == (Character { gender, ..*old(self) }),
    {
        self.gender = gender;
    }

    /// The age at `date`, or the age at death for a dead character.
    pub fn get_age(&self, date: Date) -> (r: u32)
        requires
            self.birth_date.0 <= date.0,
            self.death_date matches Some(d) ==> self.birth_date.0 <= d.0,
        ensures
            r == match self.death_date {
                Some(death_date) => death_date.0 - self.birth_date.0,
                None => date.0 - self.birth_date.0,
            },
    {
        if let Some(death_date) = self.death_date {
            death_date
        } else {
            date
        }.get_years_since(self.birth_date)
    }

    pub fn set_birth_date(&mut self, birth_date: Date)
        ensures
            *final(self) == (Character { birth_date, ..*old(self) }),
    {
        self.birth_date = birth_date;
    }

    pub fn is_alive(&self) -> (r: bool)
        ensures
            r == self.spec_is_alive(),
    {
        self.death_date.is_none()
    }

    pub fn is_dead(&self) -> (r: bool)
        ensures
            r == !self.spec_is_alive(),
    {
        self.death_date.is_some()
    }

    /// The death year is write-once: a character must be alive when it is set.
    pub fn set_death_date(&mut self, death_date: Date)
        requires
            old(self).spec_is_alive(),
        ensures
            *final(self) == (Character { death_date: Some(death_date), ..*old(self) }),
    {
        self.death_date = Some(death_date);
    }

    pub fn get_building_relations_mut(&mut self) -> (r: &mut Vec<BuildingRelation>)
        ensures
            *r == old(self).building_relations,
            *final(self) == (Character {
                building_relations: *final(r),
                ..*old(self)
            }),
    {
        &mut self.building_relations
    }

    /// Move into `building_id`: any current occupancy edge is dropped and
    /// a single occupancy edge to the new building is appended.
    pub fn relocate(&mut self, building_id: BuildingId)
        ensures
            *final(self) == (Character {
                building_relations: final(self).building_relations,
                ..*old(self)
            }),
            final(self).building_relations@ == old(self).building_relations@.filter(
                |r: BuildingRelation| r.relation_type != BuildingRelationType::Occupant,
            ).push(
                BuildingRelation {
                    relation_type: BuildingRelationType::Occupant,
                    id: building_id,
                },
            ),
    {
        self.remove_occupancy();
        self.building_relations.push(
            BuildingRelation::new(BuildingRelationType::Occupant, building_id),
        );
    }

    /// Drop every occupancy edge, keeping all other building edges in order.
    pub fn remove_occupancy(&mut self)
        ensures
            *final(self) == (Character {
                building_relations: final(self).building_relations,
                ..*old(self)
            }),
            final(self).building_relations@ == old(self).building_relations@.filter(
                |r: BuildingRelation| r.relation_type != BuildingRelationType::Occupant,
            ),
    {
        let mut kept: Vec<BuildingRelation> = Vec::new();
        let n = self.building_relations.len();
        let mut i: usize = 0;
        while i < n
            invariant
                n == self.building_relations.len(),
                i <= n,
                self.building_relations == old(self).building_relations,
                kept@ == self.building_relations@.take(i as int).filter(
                    |r: BuildingRelation| r.relation_type != BuildingRelationType::Occupant,
                ),
            decreases n - i,
        {
            let relation = self.building_relations[i];
            if relation.relation_type() != &BuildingRelationType::Occupant {
                kept.push(relation);
            }
            proof {
                let pred = |r: BuildingRelation|
                    r.relation_type != BuildingRelationType::Occupant;
                let s = self.building_relations@;
                assert(s.take(i + 1) =~= s.take(i as int).push(s[i as int]));
                s.take(i as int).lemma_filter_push(s[i as int], pred);
                assert(kept@ == s.take(i + 1).filter(pred));
            }
            i = i + 1;
        }
        proof {
            assert(self.building_relations@.take(n as int) =~= self.building_relations@);
        }
        self.building_relations = kept;
    }
}

impl Character {
    /// Drop every ownership edge to the given building, keeping order.
    pub fn remove_ownership(&mut self, building_id: BuildingId)
        ensures
            *final(self) == (Character {
                building_relations: final(self).building_relations,
                ..*old(self)
            }),
            final(self).building_relations@ == old(self).building_relations@.filter(
                |r: BuildingRelation|
                    !(r.relation_type == BuildingRelationType::Owner && r.id == building_id),
            ),
    {
        let mut kept: Vec<BuildingRelation> = Vec::new();
        let n = self.building_relations.len();
        let mut i: usize = 0;
        while i < n
            invariant
                n == self.building_relations.len(),
                i <= n,
                self.building_relations == old(self).building_relations,
                kept@ == self.building_relations@.take(i as int).filter(
                    |r: BuildingRelation|
                        !(r.relation_type == BuildingRelationType::Owner && r.id == building_id),
                ),
            decreases n - i,
        {
            let relation = self.building_relations[i];
            if !(relation.relation_type == BuildingRelationType::Owner && relation.id
                == building_id) {
                kept.push(relation);
            }
            proof {
                let pred = |r: BuildingRelation|
                    !(r.relation_type == BuildingRelationType::Owner && r.id == building_id);
                let s = self.building_relations@;
                assert(s.take(i + 1) =~= s.take(i as int).push(s[i as int]));
                s.take(i as int).lemma_filter_push(s[i as int], pred);
                assert(kept@ == s.take(i + 1).filter(pred));
            }
            i = i + 1;
        }
        proof {
            assert(self.building_relations@.take(n as int) =~= self.building_relations@);
        }
        self.building_relations = kept;
    }
}

/// The entity store: owns every character record, hands out sequential ids,
/// and never deletes a record.
#[derive(Debug)]
pub struct CharacterMgr {
    pub characters: Vec<Character>,
}

impl CharacterMgr {
    /// The record for `id`; meaningful when `id` is valid.
    pub open spec fn chr(self, id: CharacterId) -> Character {
        self.characters@[id.0 as int]
    }

    /// Whether `id` names a record of this store.
    pub open spec fn valid(self, id: CharacterId) -> bool {
        id.0 < self.characters@.len()
    }

    pub open spec fn spec_len(self) -> nat {
        self.characters@.len()
    }

    /// Every record sits at the index its id names.
    pub open spec fn ids_consistent(self) -> bool {
        forall|i: int|
            0 <= i < self.characters@.len() ==> (#[trigger] self.characters@[i]).id.0 == i
    }

    /// Every relation edge points at a valid id, and the reverse edge exists:
    /// whenever a record holds (t, b), record b holds (reverse(t), a).
    pub open spec fn symmetric(self) -> bool {
        forall|i: int, k: int|
            0 <= i < self.characters@.len() && 0 <= k < self.characters@[i].relations@.len()
                ==> {
                let edge = #[trigger] self.characters@[i].relations@[k];
                &&& edge.id.0 < self.characters@.len()
                &&& self.characters@[edge.id.0 as int].has_edge(
                    edge.relation_type.spec_reverse(),
                    CharacterId(i as usize),
                )
            }
    }

    /// The well-formedness of the store: consistent ids and symmetric edges.
    pub open spec fn wf(self) -> bool {
        self.ids_consistent() && self.symmetric()
    }

    /// Append a fresh record and hand back its id.
    pub fn create(&mut self) -> (id: CharacterId)
        requires
            old(self).spec_len() < usize::MAX,
        ensures
            id.0 == old(self).spec_len(),
            final(self).characters@ == old(self).characters@.push(
                final(self).characters@[id.0 as int],
            ),
            final(self).chr(id) == final(self).characters@[id.0 as int],
            final(self).chr(id).id == id,
            final(self).chr(id).relations@ =~= Seq::<Relation>::empty(),
            final(self).chr(id).building_relations@ =~= Seq::<BuildingRelation>::empty(),
            final(self).chr(id).spec_is_alive(),
            final(self).chr(id).gender == Gender::Male,
            final(self).chr(id).birth_date.0 == 0,
            final(self).chr(id).name@ == NameView::Simple(spec_dec(id.0 as nat)),
            old(self).wf() ==> final(self).wf(),
    {
        let id = CharacterId::new(self.characters.len());
        self.characters.push(Character::new(id));
        proof {
            if old(self).wf() {
                assert forall|i: int, k: int|
                    0 <= i < self.characters@.len() && 0 <= k
                        < self.characters@[i].relations@.len() implies {
                    let edge = #[trigger] self.characters@[i].relations@[k];
                    edge.id.0 < self.characters@.len() && self.characters@[edge.id.0 as int]
                        .has_edge(edge.relation_type.spec_reverse(), CharacterId(i as usize))
                } by {
                    assert(i < old(self).characters@.len());
                    let edge = self.characters@[i].relations@[k];
                    assert(old(self).characters@[i].relations@[k] == edge);
                    assert(old(self).characters@[edge.id.0 as int].has_edge(
                        edge.relation_type.spec_reverse(),
                        CharacterId(i as usize),
                    ));
                }
            }
        }
        id
    }

    pub fn get_all(&self) -> (r: &Vec<Character>)
        ensures
            *r == self.characters,
    {
        &self.characters
    }

    pub fn get(&self, id: CharacterId) -> (r: Option<&Character>)
        ensures
            match r {
                Some(c) => self.valid(id) && *c == self.chr(id),
                None => !self.valid(id),
            },
    {
        if id.0 < self.characters.len() {
            Some(&self.characters[id.0])
        } else {
            None
        }
    }

    pub fn get_mut(&mut self, id: CharacterId) -> (r: Option<&mut Character>)
        ensures
            match r {
                Some(c) => {
                    &&& old(self).valid(id)
                    &&& *c == old(self).chr(id)
                    &&& final(self).characters@ == old(self).characters@.update(
                        id.0 as int,
                        *final(c),
                    )
                },
                None => {
                    &&& !old(self).valid(id)
                    &&& *final(self) == *old(self)
                },
            },
    {
        if id.0 < self.characters.len() {
            Some(&mut self.characters[id.0])
        } else {
            None
        }
    }
}

/// In a well-formed store every stored edge has its mirror: whenever a
/// record holds the edge (t, b), record b holds (reverse(t), a) back.
pub proof fn lemma_edge_symmetry(m: CharacterMgr, a: CharacterId, t: RelationType, b: CharacterId)
    requires
        m.wf(),
        m.valid(a),
        m.chr(a).has_edge(t, b),
    ensures
        m.valid(b),
        m.chr(b).has_edge(t.spec_reverse(), a),
{
    let k = choose|k: int|
        0 <= k < m.chr(a).relations@.len() && m.chr(a).relations@[k] == (Relation {
            relation_type: t,
            id: b,
        });
    assert(m.characters@[a.0 as int].relations@[k] == (Relation { relation_type: t, id: b }));
    assert(m.characters@[b.0 as int].has_edge(t.spec_reverse(), CharacterId(a.0)));
}

impl Default for CharacterMgr {
    /// An empty store.
    fn default() -> (r: Self)
        ensures
            r.characters@ =~= Seq::<Character>::empty(),
    {
        CharacterMgr { characters: Vec::new() }
    }
}

} // verus!
