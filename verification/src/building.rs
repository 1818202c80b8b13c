use vstd::prelude::*;
use crate::character::CharacterId;
use crate::time::Date;

verus! {

/// A stable handle for a building record, issued sequentially by the store.
#[derive(Copy, Clone, Debug, PartialEq, Eq, Hash, Structural)]
pub struct BuildingId(pub usize);

impl BuildingId {
    pub fn new(id: usize) -> (r: Self)
        ensures
            r.0 == id,
    {
        BuildingId(id)
    }

    pub fn id(&self) -> (r: usize)
        ensures
            r == self.0,
    {
        self.0
    }
}

/// One dwelling and the characters that currently live in it.
#[derive(Clone, Debug, PartialEq, Eq)]
pub struct Home {
    pub occupants: Vec<CharacterId>,
}

impl Home {
    pub fn new(occupants: Vec<CharacterId>) -> (r: Self)
        ensures
            r.occupants == occupants,
    {
        Home { occupants }
    }

    pub fn occupants(&self) -> (r: &Vec<CharacterId>)
        ensures
            *r == self.occupants,
    {
        &self.occupants
    }

    pub fn is_empty(&self) -> (r: bool)
        ensures
            r == (self.occupants@.len() == 0),
    {
        self.occupants.is_empty()
    }

    pub fn get_occupants_mut(&mut self) -> (r: &mut Vec<CharacterId>)
        ensures
            *r == old(self).occupants,
            final(self).occupants == *final(r),
    {
        &mut self.occupants
    }

    /// Remove every occurrence of `id` from the occupant list, keeping order.
    pub fn remove_occupant(&mut self, id: CharacterId)
        ensures
            final(self).occupants@ == old(self).occupants@.filter(
                |occupant_id: CharacterId| occupant_id != id,
            ),
    {
        let mut kept: Vec<CharacterId> = Vec::new();
        let n = self.occupants.len();
        let mut i: usize = 0;
        while i < n
            invariant
                n == self.occupants.len(),
                i <= n,
                self.occupants == old(self).occupants,
                kept@ == self.occupants@.take(i as int).filter(
                    |occupant_id: CharacterId| occupant_id != id,
                ),
            decreases n - i,
        {
            let occupant = self.occupants[i];
            if occupant != id {
                kept.push(occupant);
            }
            proof {
                let pred = |occupant_id: CharacterId| occupant_id != id;
                let s = self.occupants@;
                assert(s.take(i + 1) =~= s.take(i as int).push(s[i as int]));
                s.take(i as int).lemma_filter_push(s[i as int], pred);
                assert(kept@ == s.take(i + 1).filter(pred));
            }
            i = i + 1;
        }
        proof {
            assert(self.occupants@.take(n as int) =~= self.occupants@);
        }
        self.occupants = kept;
    }
}

impl Default for Home {
    /// A dwelling with nobody living in it.
    fn default() -> (r: Self)
        ensures
            r.occupants@ =~= Seq::<CharacterId>::empty(),
    {
        Home { occupants: Vec::new() }
    }
}

/// What a building is used for: a block of dwellings, or a single one.
#[derive(Clone, Debug, PartialEq, Eq)]
pub enum BuildingUsage {
    Apartments(Vec<Home>),
    House(Home),
}

impl BuildingUsage {
    /// A single empty dwelling.
    pub fn house() -> (r: Self)
        ensures
            r matches BuildingUsage::House(home) && home.occupants@.len() == 0,
    {
        BuildingUsage::House(Home::default())
    }

    pub open spec fn spec_is_apartments(&self) -> bool {
        self is Apartments
    }

    #[verifier::when_used_as_spec(spec_is_apartments)]
    pub fn is_apartments(&self) -> (r: bool)
        ensures
            r == self.spec_is_apartments(),
    {
        matches!(self, BuildingUsage::Apartments(..))
    }

    pub open spec fn spec_is_house(&self) -> bool {
        self is House
    }

    #[verifier::when_used_as_spec(spec_is_house)]
    pub fn is_house(&self) -> (r: bool)
        ensures
            r == self.spec_is_house(),
    {
        matches!(self, BuildingUsage::House(..))
    }

    /// The usage as a word, for listings.
    pub fn as_text(&self) -> (r: &'static str)
        ensures
            r@ == if self.spec_is_apartments() {
                "Apartments"@
            } else {
                "House"@
            },
    {
        match self {
            BuildingUsage::Apartments(..) => "Apartments",
            BuildingUsage::House(..) => "House",
        }
    }

    /// Every character id living in this building, dwelling by dwelling.
    pub open spec fn all_occupants(self) -> Seq<CharacterId> {
        match self {
            BuildingUsage::Apartments(homes) => homes@.map_values(
                |home: Home| home.occupants@,
            ).flatten(),
            BuildingUsage::House(home) => home.occupants@,
        }
    }
}

/// A building: identity, usage, when it was built, who built it and who owns it.
#[derive(Clone, Debug, PartialEq, Eq)]
pub struct Building {
    pub id: BuildingId,
    pub usage: BuildingUsage,
    pub construction_date: Date,
    pub builder: CharacterId,
    pub owner: CharacterId,
}

impl Building {
    pub fn new(
        id: BuildingId,
        usage: BuildingUsage,
        construction_date: Date,
        builder: CharacterId,
        owner: CharacterId,
    ) -> (r: Self)
        ensures
            r == (Building { id, usage, construction_date, builder, owner }),
    {
        Building { id, usage, construction_date, builder, owner }
    }

    pub fn id(&self) -> (r: &BuildingId)
        ensures
            *r == self.id,
    {
        &self.id
    }

    pub fn usage(&self) -> (r: &BuildingUsage)
        ensures
            *r == self.usage,
    {
        &self.usage
    }

    pub fn construction_date(&self) -> (r: &Date)
        ensures
            *r == self.construction_date,
    {
        &self.construction_date
    }

    pub fn builder(&self) -> (r: &CharacterId)
        ensures
            *r == self.builder,
    {
        &self.builder
    }

    pub fn owner(&self) -> (r: &CharacterId)
        ensures
            *r == self.owner,
    {
        &self.owner
    }

    /// The number of years the building has stood at `date`.
    pub fn get_age(&self, date: Date) -> (r: u32)
        requires
            self.construction_date.0 <= date.0,
        ensures
            r == date.0 - self.construction_date.0,
    {
        date.get_years_since(self.construction_date)
    }

    pub fn get_usage_mut(&mut self) -> (r: &mut BuildingUsage)
        ensures
            *r == old(self).usage,
            *final(self) == (Building { usage: *final(r), ..*old(self) }),
    {
        &mut self.usage
    }

    /// Remove `id` from every dwelling of this building.
    pub fn remove_occupant(&mut self, id: CharacterId)
        ensures
            *final(self) == (Building { usage: final(self).usage, ..*old(self) }),
            match old(self).usage {
                BuildingUsage::Apartments(homes) => {
                    &&& final(self).usage matches BuildingUsage::Apartments(new_homes)
                    &&& new_homes@.len() == homes@.len()
                    &&& forall|j: int|
                        0 <= j < homes@.len() ==> (#[trigger] new_homes@[j]).occupants@
                            == homes@[j].occupants@.filter(
                            |occupant_id: CharacterId| occupant_id != id,
                        )
                },
                BuildingUsage::House(home) => {
                    &&& final(self).usage matches BuildingUsage::House(new_home)
                    &&& new_home.occupants@ == home.occupants@.filter(
                        |occupant_id: CharacterId| occupant_id != id,
                    )
                },
            },
    {
        match &mut self.usage {
            BuildingUsage::Apartments(homes) => {
                let n = homes.len();
                let mut j: usize = 0;
                while j < n
                    invariant
                        n == homes@.len(),
                        j <= n,
                        homes@.len() == old(self).usage->Apartments_0@.len(),
                        forall|k: int|
                            j <= k < n ==> homes@[k] == old(self).usage->Apartments_0@[k],
                        forall|k: int|
                            0 <= k < j ==> (#[trigger] homes@[k]).occupants@
                                == old(self).usage->Apartments_0@[k].occupants@.filter(
                                |occupant_id: CharacterId| occupant_id != id,
                            ),
                    decreases n - j,
                {
                    homes[j].remove_occupant(id);
                    j = j + 1;
                }
            },
            BuildingUsage::House(home) => {
                home.remove_occupant(id);
            },
        }
    }

    pub fn update_owner(&mut self, owner: CharacterId)
        ensures
            *final(self) == (Building { owner, ..*old(self) }),
    {
        self.owner = owner;
    }
}

/// The store for building records; it never deletes a record.
#[derive(Debug)]
pub struct BuildingMgr {
    pub buildings: Vec<Building>,
}

impl BuildingMgr {
    pub open spec fn bld(self, id: BuildingId) -> Building {
        self.buildings@[id.0 as int]
    }

    pub open spec fn valid(self, id: BuildingId) -> bool {
        id.0 < self.buildings@.len()
    }

    pub open spec fn spec_len(self) -> nat {
        self.buildings@.len()
    }

    /// Append a fresh building record and hand back its id.
    pub fn create(
        &mut self,
        usage: BuildingUsage,
        construction_date: Date,
        builder: CharacterId,
        owner: CharacterId,
    ) -> (id: BuildingId)
        requires
            old(self).spec_len() < usize::MAX,
        ensures
            id.0 == old(self).spec_len(),
            final(self).buildings@ == old(self).buildings@.push(
                Building { id, usage, construction_date, builder, owner },
            ),
    {
        let id = BuildingId::new(self.buildings.len());
        let building = Building::new(id, usage, construction_date, builder, owner);
        self.buildings.push(building);
        id
    }

    pub fn get_all(&self) -> (r: &Vec<Building>)
        ensures
            *r == self.buildings,
    {
        &self.buildings
    }

    pub fn get(&self, id: BuildingId) -> (r: Option<&Building>)
        ensures
            match r {
                Some(b) => self.valid(id) && *b == self.bld(id),
                None => !self.valid(id),
            },
    {
        if id.0 < self.buildings.len() {
            Some(&self.buildings[id.0])
        } else {
            None
        }
    }

    pub fn get_mut(&mut self, id: BuildingId) -> (r: Option<&mut Building>)
        ensures
            match r {
                Some(b) => {
                    &&& old(self).valid(id)
                    &&& *b == old(self).bld(id)
                    &&& final(self).buildings@ == old(self).buildings@.update(
                        id.0 as int,
                        *final(b),
                    )
                },
                None => {
                    &&& !old(self).valid(id)
                    &&& *final(self) == *old(self)
                },
            },
    {
        if id.0 < self.buildings.len() {
            Some(&mut self.buildings[id.0])
        } else {
            None
        }
    }
}

impl Default for BuildingMgr {
    /// An empty store.
    fn default() -> (r: Self)
        ensures
            r.buildings@ =~= Seq::<Building>::empty(),
    {
        BuildingMgr { buildings: Vec::new() }
    }
}

} // verus!
