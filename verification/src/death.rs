use vstd::prelude::*;
use crate::building::{Building, BuildingId};
use crate::building_relation::BuildingRelationType;
use crate::character::{Character, CharacterId, CharacterMgr};
use crate::character_usecase::same_but_building_relations;
use crate::building_usecase::{
    get_buildings_owned_by, remove_occupant_from_building, spec_first_building_edge,
    update_owner,
};
use crate::relation::{RelationType, RelativeType};
use crate::relation_get::{get_children, get_spouses, rel_ids};
use crate::time::Date;
use crate::SimulationData;

verus! {

pub fn is_alive(manager: &CharacterMgr, id: CharacterId) -> (r: bool)
    requires
        manager.valid(id),
    ensures
        r == manager.chr(id).spec_is_alive(),
{
    (&manager.characters[id.0]).is_alive()
}

pub fn is_dead(manager: &CharacterMgr, id: CharacterId) -> (r: bool)
    requires
        manager.valid(id),
    ensures
        r == !manager.chr(id).spec_is_alive(),
{
    (&manager.characters[id.0]).is_dead()
}

pub fn get_death_date(manager: &CharacterMgr, id: CharacterId) -> (r: &Option<Date>)
    requires
        manager.valid(id),
    ensures
        *r == manager.chr(id).death_date,
{
    (&manager.characters[id.0]).death_date()
}

/// Whether a living spouse exists.
pub open spec fn has_living_spouse(m: CharacterMgr, id: CharacterId) -> bool {
    exists|h: CharacterId|
        #[trigger] m.chr(id).has_edge(RelationType::Spouse, h) && h.0 < m.characters@.len()
            && m.chr(h).spec_is_alive()
}

/// Whether a living child exists.
pub open spec fn has_living_child(m: CharacterMgr, id: CharacterId) -> bool {
    exists|h: CharacterId|
        #[trigger] m.chr(id).has_edge(RelationType::Relative(RelativeType::Child), h) && h.0
            < m.characters@.len() && m.chr(h).spec_is_alive()
}

/// Whether a living grandchild exists.
pub open spec fn has_living_grandchild(m: CharacterMgr, id: CharacterId) -> bool {
    exists|h: CharacterId|
        #[trigger] m.chr(id).has_edge(RelationType::Relative(RelativeType::GrandChild), h)
            && h.0 < m.characters@.len() && m.chr(h).spec_is_alive()
}

/// Whether `h` may inherit from `id`: the first class down the priority
/// spouse, child, grandchild that still has a living member.
pub open spec fn spec_heir_candidate(m: CharacterMgr, id: CharacterId, h: CharacterId) -> bool {
    &&& h.0 < m.characters@.len()
    &&& m.chr(h).spec_is_alive()
    &&& if has_living_spouse(m, id) {
        m.chr(id).has_edge(RelationType::Spouse, h)
    } else if has_living_child(m, id) {
        m.chr(id).has_edge(RelationType::Relative(RelativeType::Child), h)
    } else {
        m.chr(id).has_edge(RelationType::Relative(RelativeType::GrandChild), h)
    }
}

/// Whether a living spouse other than the character itself exists.
pub open spec fn has_living_spouse_besides(m: CharacterMgr, id: CharacterId) -> bool {
    exists|h: CharacterId|
        #[trigger] m.chr(id).has_edge(RelationType::Spouse, h) && h.0 < m.characters@.len()
            && h != id && m.chr(h).spec_is_alive()
}

/// Whether a living child other than the character itself exists.
pub open spec fn has_living_child_besides(m: CharacterMgr, id: CharacterId) -> bool {
    exists|h: CharacterId|
        #[trigger] m.chr(id).has_edge(RelationType::Relative(RelativeType::Child), h) && h.0
            < m.characters@.len() && h != id && m.chr(h).spec_is_alive()
}

/// Whether a living grandchild other than the character itself exists.
pub open spec fn has_living_grandchild_besides(m: CharacterMgr, id: CharacterId) -> bool {
    exists|h: CharacterId|
        #[trigger] m.chr(id).has_edge(RelationType::Relative(RelativeType::GrandChild), h)
            && h.0 < m.characters@.len() && h != id && m.chr(h).spec_is_alive()
}

/// Whether `h` may inherit from the freshly dead `id`: the first class down
/// the priority spouse, child, grandchild with a living member besides `id`.
pub open spec fn spec_heir_besides(m: CharacterMgr, id: CharacterId, h: CharacterId) -> bool {
    &&& h.0 < m.characters@.len()
    &&& h != id
    &&& m.chr(h).spec_is_alive()
    &&& if has_living_spouse_besides(m, id) {
        m.chr(id).has_edge(RelationType::Spouse, h)
    } else if has_living_child_besides(m, id) {
        m.chr(id).has_edge(RelationType::Relative(RelativeType::Child), h)
    } else {
        m.chr(id).has_edge(RelationType::Relative(RelativeType::GrandChild), h)
    }
}

/// After the death year is recorded, the heir classes of the dead character
/// are its living relatives besides itself, read off the earlier state.
proof fn lemma_besides_eq(m0: CharacterMgr, m1: CharacterMgr, id: CharacterId)
    requires
        m0.characters@.len() == m1.characters@.len(),
        id.0 < m0.characters@.len(),
        forall|i: int|
            0 <= i < m0.characters@.len() ==> #[trigger] m1.characters@[i].relations
                == m0.characters@[i].relations,
        forall|i: int|
            0 <= i < m0.characters@.len() && i != id.0 ==> #[trigger] m1.characters@[i]
                .death_date == m0.characters@[i].death_date,
        !m1.chr(id).spec_is_alive(),
    ensures
        has_living_spouse(m1, id) == has_living_spouse_besides(m0, id),
        has_living_child(m1, id) == has_living_child_besides(m0, id),
        has_living_grandchild(m1, id) == has_living_grandchild_besides(m0, id),
        forall|h: CharacterId|
            #[trigger] spec_heir_candidate(m1, id, h) == spec_heir_besides(m0, id, h),
{
    assert(m1.chr(id).relations == m0.chr(id).relations);
    assert forall|h: CharacterId, t: RelationType|
        #[trigger] m1.chr(id).has_edge(t, h) == m0.chr(id).has_edge(t, h) by {}
    assert forall|h: CharacterId|
        h.0 < m0.characters@.len() && h != id implies #[trigger] m1.chr(h).spec_is_alive()
        == m0.chr(h).spec_is_alive() by {
        assert(m1.characters@[h.0 as int].death_date == m0.characters@[h.0 as int].death_date);
    }
    assert(has_living_spouse(m1, id) == has_living_spouse_besides(m0, id)) by {
        if has_living_spouse(m1, id) {
            let h = choose|h: CharacterId|
                #[trigger] m1.chr(id).has_edge(RelationType::Spouse, h) && h.0
                    < m1.characters@.len() && m1.chr(h).spec_is_alive();
            assert(h != id);
            assert(has_living_spouse_besides(m0, id));
        }
        if has_living_spouse_besides(m0, id) {
            let h = choose|h: CharacterId|
                #[trigger] m0.chr(id).has_edge(RelationType::Spouse, h) && h.0
                    < m0.characters@.len() && h != id && m0.chr(h).spec_is_alive();
            assert(m1.chr(id).has_edge(RelationType::Spouse, h));
            assert(has_living_spouse(m1, id));
        }
    }
    assert(has_living_child(m1, id) == has_living_child_besides(m0, id)) by {
        if has_living_child(m1, id) {
            let h = choose|h: CharacterId|
                #[trigger] m1.chr(id).has_edge(RelationType::Relative(RelativeType::Child), h)
                    && h.0 < m1.characters@.len() && m1.chr(h).spec_is_alive();
            assert(h != id);
            assert(has_living_child_besides(m0, id));
        }
        if has_living_child_besides(m0, id) {
            let h = choose|h: CharacterId|
                #[trigger] m0.chr(id).has_edge(RelationType::Relative(RelativeType::Child), h)
                    && h.0 < m0.characters@.len() && h != id && m0.chr(h).spec_is_alive();
            assert(m1.chr(id).has_edge(RelationType::Relative(RelativeType::Child), h));
            assert(has_living_child(m1, id));
        }
    }
    assert(has_living_grandchild(m1, id) == has_living_grandchild_besides(m0, id)) by {
        if has_living_grandchild(m1, id) {
            let h = choose|h: CharacterId|
                #[trigger] m1.chr(id).has_edge(
                    RelationType::Relative(RelativeType::GrandChild),
                    h,
                ) && h.0 < m1.characters@.len() && m1.chr(h).spec_is_alive();
            assert(h != id);
            assert(has_living_grandchild_besides(m0, id));
        }
        if has_living_grandchild_besides(m0, id) {
            let h = choose|h: CharacterId|
                #[trigger] m0.chr(id).has_edge(
                    RelationType::Relative(RelativeType::GrandChild),
                    h,
                ) && h.0 < m0.characters@.len() && h != id && m0.chr(h).spec_is_alive();
            assert(m1.chr(id).has_edge(RelationType::Relative(RelativeType::GrandChild), h));
            assert(has_living_grandchild(m1, id));
        }
    }
    assert forall|h: CharacterId|
        #[trigger] spec_heir_candidate(m1, id, h) == spec_heir_besides(m0, id, h) by {
        if spec_heir_candidate(m1, id, h) {
            assert(h != id);
        }
    }
}

/// The heir of a character: the first living spouse, else the first living
/// child, else the first living grandchild, else nobody.
pub fn get_heir(manager: &CharacterMgr, id: CharacterId) -> (r: Option<CharacterId>)
    requires
        manager.wf(),
        manager.valid(id),
    ensures
        match r {
            Some(h) => spec_heir_candidate(*manager, id, h),
            None => !has_living_spouse(*manager, id) && !has_living_child(*manager, id)
                && !has_living_grandchild(*manager, id),
        },
{
    let spouses = get_spouses(manager, id);
    let n = spouses.len();
    let mut i: usize = 0;
    while i < n
        invariant
            i <= n,
            n == spouses@.len(),
            manager.wf(),
            manager.valid(id),
            forall|x: CharacterId| #[trigger] spouses@.contains(x) <==> rel_ids(
                *manager,
                id,
                RelationType::Spouse,
            ).contains(x),
            forall|k: int|
                0 <= k < i ==> (#[trigger] spouses@[k]).0 < manager.characters@.len()
                    && !manager.chr(spouses@[k]).spec_is_alive(),
        decreases n - i,
    {
        let spouse_id = spouses[i];
        proof {
            assert(spouses@.contains(spouse_id));
            crate::birth::lemma_any_target_valid(*manager, id, RelationType::Spouse, spouse_id);
        }
        if is_alive(manager, spouse_id) {
            return Some(spouse_id);
        }
        i = i + 1;
    }
    proof {
        assert(!has_living_spouse(*manager, id)) by {
            if has_living_spouse(*manager, id) {
                let h = choose|h: CharacterId|
                    #[trigger] manager.chr(id).has_edge(RelationType::Spouse, h) && h.0
                        < manager.characters@.len() && manager.chr(h).spec_is_alive();
                assert(spouses@.contains(h));
                let k = choose|k: int| 0 <= k < spouses@.len() && spouses@[k] == h;
            }
        }
    }
    let children = get_children(manager, id);
    let cn = children.len();
    let mut i: usize = 0;
    while i < cn
        invariant
            i <= cn,
            cn == children@.len(),
            manager.wf(),
            manager.valid(id),
            !has_living_spouse(*manager, id),
            forall|x: CharacterId| #[trigger] children@.contains(x) <==> rel_ids(
                *manager,
                id,
                RelationType::Relative(RelativeType::Child),
            ).contains(x),
            forall|k: int|
                0 <= k < i ==> (#[trigger] children@[k]).0 < manager.characters@.len()
                    && !manager.chr(children@[k]).spec_is_alive(),
        decreases cn - i,
    {
        let child_id = children[i];
        proof {
            assert(children@.contains(child_id));
            crate::birth::lemma_any_target_valid(
                *manager,
                id,
                RelationType::Relative(RelativeType::Child),
                child_id,
            );
        }
        if is_alive(manager, child_id) {
            return Some(child_id);
        }
        i = i + 1;
    }
    proof {
        assert(!has_living_child(*manager, id)) by {
            if has_living_child(*manager, id) {
                let h = choose|h: CharacterId|
                    #[trigger] manager.chr(id).has_edge(
                        RelationType::Relative(RelativeType::Child),
                        h,
                    ) && h.0 < manager.characters@.len() && manager.chr(h).spec_is_alive();
                assert(children@.contains(h));
                let k = choose|k: int| 0 <= k < children@.len() && children@[k] == h;
            }
        }
    }
    let grandchildren = crate::relation_get::get_direct_relation(
        manager,
        id,
        RelationType::Relative(RelativeType::GrandChild),
    );
    let gn = grandchildren.len();
    let mut i: usize = 0;
    while i < gn
        invariant
            i <= gn,
            gn == grandchildren@.len(),
            manager.wf(),
            manager.valid(id),
            !has_living_spouse(*manager, id),
            !has_living_child(*manager, id),
            forall|x: CharacterId| #[trigger] grandchildren@.contains(x) <==> rel_ids(
                *manager,
                id,
                RelationType::Relative(RelativeType::GrandChild),
            ).contains(x),
            forall|k: int|
                0 <= k < i ==> (#[trigger] grandchildren@[k]).0 < manager.characters@.len()
                    && !manager.chr(grandchildren@[k]).spec_is_alive(),
        decreases gn - i,
    {
        let grandchild_id = grandchildren[i];
        proof {
            assert(grandchildren@.contains(grandchild_id));
            crate::birth::lemma_any_target_valid(
                *manager,
                id,
                RelationType::Relative(RelativeType::GrandChild),
                grandchild_id,
            );
        }
        if is_alive(manager, grandchild_id) {
            return Some(grandchild_id);
        }
        i = i + 1;
    }
    proof {
        assert(!has_living_grandchild(*manager, id)) by {
            if has_living_grandchild(*manager, id) {
                let h = choose|h: CharacterId|
                    #[trigger] manager.chr(id).has_edge(
                        RelationType::Relative(RelativeType::GrandChild),
                        h,
                    ) && h.0 < manager.characters@.len() && manager.chr(h).spec_is_alive();
                assert(grandchildren@.contains(h));
                let k = choose|k: int| 0 <= k < grandchildren@.len() && grandchildren@[k] == h;
            }
        }
    }
    None
}

/// Move every building the dead character owns to its heir, when one exists;
/// with no living heir, ownership stays where it is.
fn inherit(data: &mut SimulationData, id: CharacterId)
    requires
        old(data).character_manager.wf(),
        old(data).character_manager.valid(id),
        old(data).building_manager.buildings@.len() <= usize::MAX,
        !old(data).character_manager.chr(id).spec_is_alive(),
        forall|b: BuildingId|
            old(data).character_manager.chr(id).has_building_edge(
                BuildingRelationType::Owner,
                b,
            ) ==> b.0 < old(data).building_manager.buildings@.len(),
    ensures
        final(data).date == old(data).date,
        final(data).map == old(data).map,
        final(data).character_name_generator == old(data).character_name_generator,
        final(data).character_manager.characters@.len() == old(data).character_manager.characters@.len(),
        final(data).building_manager.buildings@.len() == old(data).building_manager.buildings@.len(),
        forall|i: int|
            0 <= i < old(data).character_manager.characters@.len()
                ==> same_but_building_relations(
                old(data).character_manager.characters@[i],
                #[trigger] final(data).character_manager.characters@[i],
            ),
        forall|q: int|
            0 <= q < old(data).building_manager.buildings@.len() ==> #[trigger] final(data).building_manager.buildings@[q] == (Building {
                owner: final(data).building_manager.buildings@[q].owner,
                ..old(data).building_manager.buildings@[q]
            }),
        forall|i: int, t: crate::building_relation::BuildingRelationType, b: BuildingId|
            0 <= i < old(data).character_manager.characters@.len() && #[trigger] final(data).character_manager.characters@[i].has_building_edge(t, b) ==> (old(data).character_manager.characters@[i].has_building_edge(t, b) || (t
                == BuildingRelationType::Owner && old(data).character_manager.chr(
                id,
            ).has_building_edge(BuildingRelationType::Owner, b))),
        !(has_living_spouse(old(data).character_manager, id) || has_living_child(
            old(data).character_manager,
            id,
        ) || has_living_grandchild(old(data).character_manager, id)) ==> *final(data) == *old(data),
        (has_living_spouse(old(data).character_manager, id) || has_living_child(
            old(data).character_manager,
            id,
        ) || has_living_grandchild(old(data).character_manager, id)) ==> exists|
            h: CharacterId,
        |
            {
                &&& #[trigger] spec_heir_candidate(old(data).character_manager, id, h)
                &&& h != id
                &&& forall|b: BuildingId|
                    !#[trigger] final(data).character_manager.chr(id).has_building_edge(
                        BuildingRelationType::Owner,
                        b,
                    )
                &&& forall|b: BuildingId|
                    #[trigger] final(data).character_manager.chr(id).has_building_edge(
                        BuildingRelationType::Occupant,
                        b,
                    ) <==> old(data).character_manager.chr(id).has_building_edge(
                        BuildingRelationType::Occupant,
                        b,
                    )
                &&& forall|b: BuildingId|
                    #[trigger] final(data).character_manager.chr(h).has_building_edge(
                        BuildingRelationType::Owner,
                        b,
                    ) <==> old(data).character_manager.chr(h).has_building_edge(
                        BuildingRelationType::Owner,
                        b,
                    ) || old(data).character_manager.chr(id).has_building_edge(
                        BuildingRelationType::Owner,
                        b,
                    )
                &&& forall|b: BuildingId|
                    old(data).character_manager.chr(id).has_building_edge(
                        BuildingRelationType::Owner,
                        b,
                    ) ==> #[trigger] final(data).building_manager.bld(b).owner == h
                &&& forall|q: int|
                    0 <= q < old(data).building_manager.buildings@.len() && !old(data).character_manager.chr(id).has_building_edge(
                        BuildingRelationType::Owner,
                        BuildingId(q as usize),
                    ) ==> #[trigger] final(data).building_manager.buildings@[q].owner == old(data).building_manager.buildings@[q].owner
                &&& exists|transferred: Seq<BuildingId>|
                    {
                        &&& #[trigger] transferred.no_duplicates()
                        &&& forall|b: BuildingId| #[trigger] transferred.contains(b) <==> old(data).character_manager.chr(id).has_building_edge(
                            BuildingRelationType::Owner,
                            b,
                        )
                        &&& final(data).character_manager.chr(h).building_relations@ == old(data).character_manager.chr(h).building_relations@
                            + transferred.map_values(
                            |b: BuildingId| crate::building_relation::BuildingRelation {
                                relation_type: BuildingRelationType::Owner,
                                id: b,
                            },
                        )
                    }
                &&& forall|t: crate::building_relation::BuildingRelationType, b: BuildingId|
                    #[trigger] final(data).character_manager.chr(id).has_building_edge(t, b)
                        ==> old(data).character_manager.chr(id).has_building_edge(t, b)
                &&& forall|t: crate::building_relation::BuildingRelationType, b: BuildingId|
                    #[trigger] final(data).character_manager.chr(h).has_building_edge(t, b)
                        ==> old(data).character_manager.chr(h).has_building_edge(t, b) || (t
                        == BuildingRelationType::Owner && old(data).character_manager.chr(
                        id,
                    ).has_building_edge(BuildingRelationType::Owner, b))
                &&& forall|i: int|
                    0 <= i < old(data).character_manager.characters@.len() && i != id.0 && i
                        != h.0 ==> #[trigger] final(data).character_manager.characters@[i]
                        == old(data).character_manager.characters@[i]
            },
{
    let ghost d0 = *old(data);
    let heir = get_heir(&data.character_manager, id);
    let heir_id = match heir {
        Some(heir_id) => heir_id,
        None => {
            return ;
        },
    };
    proof {
        assert(heir_id != id);
    }
    let buildings = get_buildings_owned_by(&data.character_manager, id);
    let ghost to_edge = |b: BuildingId| crate::building_relation::BuildingRelation {
        relation_type: BuildingRelationType::Owner,
        id: b,
    };
    let n = buildings.len();
    let mut k: usize = 0;
    proof {
        assert(buildings@.take(0).map_values(to_edge) =~= Seq::<
            crate::building_relation::BuildingRelation,
        >::empty());
        assert(d0.character_manager.chr(heir_id).building_relations@ + buildings@.take(
            0,
        ).map_values(to_edge) =~= d0.character_manager.chr(heir_id).building_relations@);
    }
    while k < n
        invariant
            k <= n,
            n == buildings@.len(),
            buildings@.no_duplicates(),
            to_edge == (|b: BuildingId| crate::building_relation::BuildingRelation {
                relation_type: BuildingRelationType::Owner,
                id: b,
            }),
            data.character_manager.chr(heir_id).building_relations@ == d0.character_manager.chr(
                heir_id,
            ).building_relations@ + buildings@.take(k as int).map_values(to_edge),
            forall|q: int|
                0 <= q < d0.building_manager.buildings@.len() ==> #[trigger] data
                    .building_manager.buildings@[q] == (Building {
                    owner: data.building_manager.buildings@[q].owner,
                    ..d0.building_manager.buildings@[q]
                }),
            heir_id != id,
            id.0 < d0.character_manager.characters@.len(),
            heir_id.0 < d0.character_manager.characters@.len(),
            data.date == d0.date,
            data.map == d0.map,
            data.character_name_generator == d0.character_name_generator,
            data.character_manager.characters@.len() == d0.character_manager.characters@.len(),
            data.building_manager.buildings@.len() == d0.building_manager.buildings@.len(),
            d0.building_manager.buildings@.len() <= usize::MAX,
            forall|b: BuildingId| #[trigger] buildings@.contains(b) <==> d0.character_manager.chr(
                id,
            ).has_building_edge(BuildingRelationType::Owner, b),
            forall|b: BuildingId|
                #[trigger] buildings@.contains(b) ==> b.0
                    < d0.building_manager.buildings@.len(),
            forall|i: int|
                0 <= i < d0.character_manager.characters@.len()
                    ==> same_but_building_relations(
                    d0.character_manager.characters@[i],
                    #[trigger] data.character_manager.characters@[i],
                ),
            forall|i: int|
                0 <= i < d0.character_manager.characters@.len() && i != id.0 && i != heir_id.0
                    ==> #[trigger] data.character_manager.characters@[i]
                    == d0.character_manager.characters@[i],
            forall|b: BuildingId|
                #[trigger] data.character_manager.chr(id).has_building_edge(
                    BuildingRelationType::Owner,
                    b,
                ) <==> d0.character_manager.chr(id).has_building_edge(
                    BuildingRelationType::Owner,
                    b,
                ) && !buildings@.take(k as int).contains(b),
            forall|b: BuildingId|
                #[trigger] data.character_manager.chr(id).has_building_edge(
                    BuildingRelationType::Occupant,
                    b,
                ) <==> d0.character_manager.chr(id).has_building_edge(
                    BuildingRelationType::Occupant,
                    b,
                ),
            forall|b: BuildingId|
                #[trigger] data.character_manager.chr(heir_id).has_building_edge(
                    BuildingRelationType::Owner,
                    b,
                ) <==> d0.character_manager.chr(heir_id).has_building_edge(
                    BuildingRelationType::Owner,
                    b,
                ) || buildings@.take(k as int).contains(b),
            forall|t: crate::building_relation::BuildingRelationType, b: BuildingId|
                #[trigger] data.character_manager.chr(id).has_building_edge(t, b)
                    ==> d0.character_manager.chr(id).has_building_edge(t, b),
            forall|t: crate::building_relation::BuildingRelationType, b: BuildingId|
                #[trigger] data.character_manager.chr(heir_id).has_building_edge(t, b)
                    ==> d0.character_manager.chr(heir_id).has_building_edge(t, b) || (t
                    == BuildingRelationType::Owner && d0.character_manager.chr(
                    id,
                ).has_building_edge(BuildingRelationType::Owner, b)),
            forall|j: int|
                0 <= j < k ==> #[trigger] data.building_manager.bld(buildings@[j]).owner
                    == heir_id,
            forall|q: int|
                0 <= q < d0.building_manager.buildings@.len() && !buildings@.take(
                    k as int,
                ).contains(BuildingId(q as usize)) ==> #[trigger] data.building_manager
                    .buildings@[q] == d0.building_manager.buildings@[q],
        decreases n - k,
    {
        let building_id = buildings[k];
        proof {
            assert(buildings@[k as int] == building_id);
            assert(buildings@.contains(building_id));
        }
        let ghost pre = *data;
        update_owner(data, building_id, id, heir_id);
        proof {
            assert(buildings@.take(k + 1) =~= buildings@.take(k as int).push(building_id));
            assert(data.character_manager.chr(heir_id).building_relations@
                == d0.character_manager.chr(heir_id).building_relations@ + buildings@.take(
                k + 1,
            ).map_values(to_edge)) by {
                assert(buildings@.take(k + 1).map_values(to_edge) =~= buildings@.take(
                    k as int,
                ).map_values(to_edge).push(to_edge(building_id)));
                assert(d0.character_manager.chr(heir_id).building_relations@ + buildings@.take(
                    k as int,
                ).map_values(to_edge).push(to_edge(building_id)) =~= (d0.character_manager.chr(
                    heir_id,
                ).building_relations@ + buildings@.take(k as int).map_values(to_edge)).push(
                    to_edge(building_id),
                ));
                assert(data.character_manager.chr(heir_id).building_relations@
                    == pre.character_manager.chr(heir_id).building_relations@.push(
                    to_edge(building_id),
                ));
            }
            assert forall|q: int|
                0 <= q < d0.building_manager.buildings@.len() implies #[trigger] data
                .building_manager.buildings@[q] == (Building {
                owner: data.building_manager.buildings@[q].owner,
                ..d0.building_manager.buildings@[q]
            }) by {
                if q == building_id.0 {
                    assert(data.building_manager.buildings@[q] == (Building {
                        owner: heir_id,
                        ..pre.building_manager.bld(building_id)
                    }));
                } else {
                    assert(data.building_manager.buildings@[q]
                        == pre.building_manager.buildings@[q]);
                }
            }
            let owner_pred = |r: crate::building_relation::BuildingRelation|
                !(r.relation_type == BuildingRelationType::Owner && r.id == building_id);
            assert forall|b: BuildingId|
                #[trigger] data.character_manager.chr(id).has_building_edge(
                    BuildingRelationType::Owner,
                    b,
                ) <==> (d0.character_manager.chr(id).has_building_edge(
                    BuildingRelationType::Owner,
                    b,
                ) && !buildings@.take(k + 1).contains(b)) by {
                vstd::seq_lib::lemma_seq_contains_after_push(
                    buildings@.take(k as int),
                    building_id,
                    b,
                );
                let rels = data.character_manager.chr(id).building_relations@;
                let old_rels = pre.character_manager.chr(id).building_relations@;
                if data.character_manager.chr(id).has_building_edge(
                    BuildingRelationType::Owner,
                    b,
                ) {
                    let e = choose|e: int|
                        0 <= e < rels.len() && rels[e]
                            == (crate::building_relation::BuildingRelation {
                            relation_type: BuildingRelationType::Owner,
                            id: b,
                        });
                    old_rels.lemma_filter_pred(owner_pred, e);
                    old_rels.lemma_filter_contains_rev(owner_pred, rels[e]);
                    let e2 = choose|e2: int|
                        0 <= e2 < old_rels.len() && old_rels[e2] == rels[e];
                    assert(pre.character_manager.chr(id).has_building_edge(
                        BuildingRelationType::Owner,
                        b,
                    ));
                    assert(b != building_id);
                }
                if pre.character_manager.chr(id).has_building_edge(
                    BuildingRelationType::Owner,
                    b,
                ) && b != building_id {
                    let e = choose|e: int|
                        0 <= e < old_rels.len() && old_rels[e]
                            == (crate::building_relation::BuildingRelation {
                            relation_type: BuildingRelationType::Owner,
                            id: b,
                        });
                    old_rels.lemma_filter_contains(owner_pred, e);
                    let e2 = choose|e2: int|
                        0 <= e2 < rels.len() && rels[e2] == old_rels[e];
                }
            }
            assert forall|b: BuildingId|
                #[trigger] data.character_manager.chr(heir_id).has_building_edge(
                    BuildingRelationType::Owner,
                    b,
                ) <==> (d0.character_manager.chr(heir_id).has_building_edge(
                    BuildingRelationType::Owner,
                    b,
                ) || buildings@.take(k + 1).contains(b)) by {
                vstd::seq_lib::lemma_seq_contains_after_push(
                    buildings@.take(k as int),
                    building_id,
                    b,
                );
                let rels = data.character_manager.chr(heir_id).building_relations@;
                let old_rels = pre.character_manager.chr(heir_id).building_relations@;
                assert(rels == old_rels.push(crate::building_relation::BuildingRelation {
                    relation_type: BuildingRelationType::Owner,
                    id: building_id,
                }));
                if data.character_manager.chr(heir_id).has_building_edge(
                    BuildingRelationType::Owner,
                    b,
                ) {
                    let e = choose|e: int|
                        0 <= e < rels.len() && rels[e]
                            == (crate::building_relation::BuildingRelation {
                            relation_type: BuildingRelationType::Owner,
                            id: b,
                        });
                    if e < old_rels.len() {
                        assert(pre.character_manager.chr(heir_id).has_building_edge(
                            BuildingRelationType::Owner,
                            b,
                        ));
                    } else {
                        assert(b == building_id);
                    }
                }
                if pre.character_manager.chr(heir_id).has_building_edge(
                    BuildingRelationType::Owner,
                    b,
                ) {
                    let e = choose|e: int|
                        0 <= e < old_rels.len() && old_rels[e]
                            == (crate::building_relation::BuildingRelation {
                            relation_type: BuildingRelationType::Owner,
                            id: b,
                        });
                    assert(rels[e] == old_rels[e]);
                }
                if b == building_id {
                    assert(rels[old_rels.len() as int]
                        == (crate::building_relation::BuildingRelation {
                        relation_type: BuildingRelationType::Owner,
                        id: b,
                    }));
                }
            }
            assert forall|t: crate::building_relation::BuildingRelationType, b: BuildingId|
                #[trigger] data.character_manager.chr(id).has_building_edge(t, b) implies
                pre.character_manager.chr(id).has_building_edge(t, b) by {
                let rels = data.character_manager.chr(id).building_relations@;
                let old_rels = pre.character_manager.chr(id).building_relations@;
                let e = choose|e: int|
                    0 <= e < rels.len() && rels[e]
                        == (crate::building_relation::BuildingRelation {
                        relation_type: t,
                        id: b,
                    });
                old_rels.lemma_filter_contains_rev(owner_pred, rels[e]);
                let e2 = choose|e2: int| 0 <= e2 < old_rels.len() && old_rels[e2] == rels[e];
            }
            assert forall|t: crate::building_relation::BuildingRelationType, b: BuildingId|
                #[trigger] data.character_manager.chr(heir_id).has_building_edge(t, b) implies
                (pre.character_manager.chr(heir_id).has_building_edge(t, b) || (t
                == BuildingRelationType::Owner && b == building_id)) by {
                let rels = data.character_manager.chr(heir_id).building_relations@;
                let old_rels = pre.character_manager.chr(heir_id).building_relations@;
                let e = choose|e: int|
                    0 <= e < rels.len() && rels[e]
                        == (crate::building_relation::BuildingRelation {
                        relation_type: t,
                        id: b,
                    });
                if e < old_rels.len() {
                    assert(old_rels[e] == rels[e]);
                }
            }
            assert forall|j: int|
                0 <= j < k + 1 implies #[trigger] data.building_manager.bld(
                buildings@[j],
            ).owner == heir_id by {
                if j < k {
                    assert(buildings@[j] != building_id);
                    assert(buildings@[j].0 != building_id.0);
                    assert(buildings@.contains(buildings@[j]));
                    assert(buildings@[j].0 < d0.building_manager.buildings@.len());
                    assert(pre.building_manager.bld(buildings@[j]).owner == heir_id);
                    assert(data.building_manager.buildings@[buildings@[j].0 as int]
                        == pre.building_manager.buildings@[buildings@[j].0 as int]);
                } else {
                    assert(data.building_manager.buildings@[building_id.0 as int].owner
                        == heir_id);
                }
            }
            assert forall|b: BuildingId|
                #[trigger] data.character_manager.chr(id).has_building_edge(
                    BuildingRelationType::Occupant,
                    b,
                ) <==> pre.character_manager.chr(id).has_building_edge(
                BuildingRelationType::Occupant,
                b,
            ) by {
                let rels = data.character_manager.chr(id).building_relations@;
                let old_rels = pre.character_manager.chr(id).building_relations@;
                if data.character_manager.chr(id).has_building_edge(
                    BuildingRelationType::Occupant,
                    b,
                ) {
                    let e = choose|e: int|
                        0 <= e < rels.len() && rels[e]
                            == (crate::building_relation::BuildingRelation {
                            relation_type: BuildingRelationType::Occupant,
                            id: b,
                        });
                    old_rels.lemma_filter_contains_rev(owner_pred, rels[e]);
                    let e2 = choose|e2: int|
                        0 <= e2 < old_rels.len() && old_rels[e2] == rels[e];
                }
                if pre.character_manager.chr(id).has_building_edge(
                    BuildingRelationType::Occupant,
                    b,
                ) {
                    let e = choose|e: int|
                        0 <= e < old_rels.len() && old_rels[e]
                            == (crate::building_relation::BuildingRelation {
                            relation_type: BuildingRelationType::Occupant,
                            id: b,
                        });
                    old_rels.lemma_filter_contains(owner_pred, e);
                    let e2 = choose|e2: int|
                        0 <= e2 < rels.len() && rels[e2] == old_rels[e];
                }
            }
            assert forall|q: int|
                0 <= q < d0.building_manager.buildings@.len() && !buildings@.take(
                    k + 1,
                ).contains(BuildingId(q as usize)) implies #[trigger] data.building_manager
                .buildings@[q] == d0.building_manager.buildings@[q] by {
                vstd::seq_lib::lemma_seq_contains_after_push(
                    buildings@.take(k as int),
                    building_id,
                    BuildingId(q as usize),
                );
                assert(q != building_id.0);
            }
        }
        k = k + 1;
    }
    proof {
        assert(buildings@.take(n as int) =~= buildings@);
        // ownership of every untransferred building is untouched
        assert forall|q: int|
            0 <= q < d0.building_manager.buildings@.len() && !d0.character_manager.chr(
                id,
            ).has_building_edge(BuildingRelationType::Owner, BuildingId(q as usize)) implies
            #[trigger] data.building_manager.buildings@[q].owner
            == d0.building_manager.buildings@[q].owner by {
            assert(!buildings@.contains(BuildingId(q as usize)));
            assert(data.building_manager.buildings@[q] == d0.building_manager.buildings@[q]);
        }
        // the heir's edge list grew by exactly one edge per transferred building
        assert(data.character_manager.chr(heir_id).building_relations@
            == d0.character_manager.chr(heir_id).building_relations@ + buildings@.map_values(
            to_edge,
        )) by {
            assert(buildings@.take(n as int).map_values(to_edge) =~= buildings@.map_values(
                to_edge,
            ));
        }
        // any edge still held traces back to an edge held before, or to an
        // ownership the dead character gave up
        assert forall|i: int, t: crate::building_relation::BuildingRelationType, b: BuildingId|
            0 <= i < d0.character_manager.characters@.len() && #[trigger] data
            .character_manager.characters@[i].has_building_edge(t, b) implies (d0
            .character_manager.characters@[i].has_building_edge(t, b) || (t
            == BuildingRelationType::Owner && d0.character_manager.chr(id).has_building_edge(
            BuildingRelationType::Owner,
            b,
        ))) by {
            if i == id.0 {
                assert(data.character_manager.chr(id).has_building_edge(t, b));
            } else if i == heir_id.0 {
                assert(data.character_manager.chr(heir_id).has_building_edge(t, b));
            } else {
                assert(data.character_manager.characters@[i]
                    == d0.character_manager.characters@[i]);
            }
        }
    }
}

/// A character dies: it leaves the dwelling it occupies, its death year is
/// recorded (it must still be alive), its occupancy edges are dropped, and
/// its buildings pass to its heir.
#[verifier::rlimit(100)]
#[verifier::spinoff_prover]
pub fn death(data: &mut SimulationData, id: CharacterId)
    requires
        old(data).character_manager.wf(),
        old(data).character_manager.valid(id),
        old(data).building_manager.buildings@.len() <= usize::MAX,
        old(data).character_manager.chr(id).spec_is_alive(),
        forall|b: BuildingId|
            old(data).character_manager.chr(id).has_building_edge(
                BuildingRelationType::Occupant,
                b,
            ) ==> b.0 < old(data).building_manager.buildings@.len(),
        forall|b: BuildingId|
            old(data).character_manager.chr(id).has_building_edge(
                BuildingRelationType::Owner,
                b,
            ) ==> b.0 < old(data).building_manager.buildings@.len(),
    ensures
        final(data).date == old(data).date,
        final(data).map == old(data).map,
        final(data).character_name_generator == old(data).character_name_generator,
        final(data).character_manager.characters@.len() == old(data).character_manager.characters@.len(),
        final(data).building_manager.buildings@.len() == old(data).building_manager.buildings@.len(),
        final(data).character_manager.chr(id).death_date == Some(old(data).date),
        forall|i: int|
            0 <= i < old(data).character_manager.characters@.len() && i != id.0
                ==> #[trigger] final(data).character_manager.characters@[i].death_date == old(data).character_manager.characters@[i].death_date,
        forall|i: int|
            0 <= i < old(data).character_manager.characters@.len() ==> #[trigger] final(data).character_manager.characters@[i].relations == old(data).character_manager.characters@[i].relations,
        forall|i: int|
            0 <= i < old(data).character_manager.characters@.len() ==> ((#[trigger] final(data).character_manager.characters@[i]).id == old(data).character_manager.characters@[i].id
                && final(data).character_manager.characters@[i].name == old(data).character_manager.characters@[i].name
                && final(data).character_manager.characters@[i].gender == old(data).character_manager.characters@[i].gender
                && final(data).character_manager.characters@[i].birth_date == old(data).character_manager.characters@[i].birth_date),
        final(data).character_manager.wf(),
        forall|b: BuildingId|
            !#[trigger] final(data).character_manager.chr(id).has_building_edge(
                BuildingRelationType::Occupant,
                b,
            ),
        forall|q: int|
            0 <= q < old(data).building_manager.buildings@.len() ==> #[trigger] final(data).building_manager.buildings@[q] == (Building {
                owner: final(data).building_manager.buildings@[q].owner,
                usage: final(data).building_manager.buildings@[q].usage,
                ..old(data).building_manager.buildings@[q]
            }),
        forall|i: int, t: crate::building_relation::BuildingRelationType, b: BuildingId|
            0 <= i < old(data).character_manager.characters@.len() && #[trigger] final(data).character_manager.characters@[i].has_building_edge(t, b) ==> (old(data).character_manager.characters@[i].has_building_edge(t, b) || (t
                == BuildingRelationType::Owner && old(data).character_manager.chr(
                id,
            ).has_building_edge(BuildingRelationType::Owner, b))),
        !(has_living_spouse_besides(old(data).character_manager, id)
            || has_living_child_besides(old(data).character_manager, id)
            || has_living_grandchild_besides(old(data).character_manager, id)) ==> {
            &&& forall|q: int|
                0 <= q < old(data).building_manager.buildings@.len() ==> #[trigger] final(data).building_manager.buildings@[q].owner == old(data).building_manager.buildings@[q].owner
            &&& forall|b: BuildingId|
                #[trigger] final(data).character_manager.chr(id).has_building_edge(
                    BuildingRelationType::Owner,
                    b,
                ) <==> old(data).character_manager.chr(id).has_building_edge(
                    BuildingRelationType::Owner,
                    b,
                )
            &&& forall|i: int|
                0 <= i < old(data).character_manager.characters@.len() && i != id.0
                    ==> #[trigger] final(data).character_manager.characters@[i] == old(data).character_manager.characters@[i]
        },
        (has_living_spouse_besides(old(data).character_manager, id)
            || has_living_child_besides(old(data).character_manager, id)
            || has_living_grandchild_besides(old(data).character_manager, id)) ==> (exists|
            h: CharacterId,
        |
            {
                &&& #[trigger] spec_heir_besides(old(data).character_manager, id, h)
                &&& forall|b: BuildingId|
                    !#[trigger] final(data).character_manager.chr(id).has_building_edge(
                        BuildingRelationType::Owner,
                        b,
                    )
                &&& forall|b: BuildingId|
                    old(data).character_manager.chr(id).has_building_edge(
                        BuildingRelationType::Owner,
                        b,
                    ) ==> #[trigger] final(data).building_manager.bld(b).owner == h
                        && final(data).character_manager.chr(h).has_building_edge(
                        BuildingRelationType::Owner,
                        b,
                    )
                &&& forall|q: int|
                    0 <= q < old(data).building_manager.buildings@.len() && !old(data).character_manager.chr(id).has_building_edge(
                        BuildingRelationType::Owner,
                        BuildingId(q as usize),
                    ) ==> #[trigger] final(data).building_manager.buildings@[q].owner == old(data).building_manager.buildings@[q].owner
                &&& exists|transferred: Seq<BuildingId>|
                    {
                        &&& #[trigger] transferred.no_duplicates()
                        &&& forall|b: BuildingId| #[trigger] transferred.contains(b) <==> old(data).character_manager.chr(id).has_building_edge(
                            BuildingRelationType::Owner,
                            b,
                        )
                        &&& final(data).character_manager.chr(h).building_relations@ == old(data).character_manager.chr(h).building_relations@
                            + transferred.map_values(
                            |b: BuildingId| crate::building_relation::BuildingRelation {
                                relation_type: BuildingRelationType::Owner,
                                id: b,
                            },
                        )
                    }
            }),
{
    let ghost d0 = *old(data);
    remove_occupant_from_building(data, id);
    let character = &mut data.character_manager.characters[id.0];
    let date = data.date;
    character.set_death_date(date);
    character.remove_occupancy();
    let ghost g1 = *data;
    proof {
        // the relation edges, the liveness of everyone else, and the heir
        // classes are untouched by the occupancy bookkeeping
        assert(g1.character_manager.wf()) by {
            assert forall|i: int, e: int|
                0 <= i < g1.character_manager.characters@.len() && 0 <= e
                    < g1.character_manager.characters@[i].relations@.len() implies {
                let edge = #[trigger] g1.character_manager.characters@[i].relations@[e];
                &&& edge.id.0 < g1.character_manager.characters@.len()
                &&& g1.character_manager.characters@[edge.id.0 as int].has_edge(
                    edge.relation_type.spec_reverse(),
                    CharacterId(i as usize),
                )
            } by {
                assert(g1.character_manager.characters@[i].relations
                    == d0.character_manager.characters@[i].relations);
                let edge = g1.character_manager.characters@[i].relations@[e];
                assert(d0.character_manager.characters@[edge.id.0 as int].has_edge(
                    edge.relation_type.spec_reverse(),
                    CharacterId(i as usize),
                ));
                assert(g1.character_manager.characters@[edge.id.0 as int].relations
                    == d0.character_manager.characters@[edge.id.0 as int].relations);
            }
        }
    }
    proof {
        assert forall|b: BuildingId|
            g1.character_manager.chr(id).has_building_edge(
                BuildingRelationType::Owner,
                b,
            ) implies b.0 < g1.building_manager.buildings@.len() by {
            let rels = g1.character_manager.chr(id).building_relations@;
            let old_rels = d0.character_manager.chr(id).building_relations@;
            let pred = |r: crate::building_relation::BuildingRelation|
                r.relation_type != BuildingRelationType::Occupant;
            let e = choose|e: int|
                0 <= e < rels.len() && rels[e]
                    == (crate::building_relation::BuildingRelation {
                    relation_type: BuildingRelationType::Owner,
                    id: b,
                });
            old_rels.lemma_filter_contains_rev(pred, rels[e]);
            let e2 = choose|e2: int| 0 <= e2 < old_rels.len() && old_rels[e2] == rels[e];
            assert(d0.character_manager.chr(id).has_building_edge(
                BuildingRelationType::Owner,
                b,
            ));
        }
    }
    inherit(data, id);
    proof {
        lemma_besides_eq(d0.character_manager, g1.character_manager, id);
        crate::birth::lemma_wf_from_relations(g1.character_manager, data.character_manager);
        let occupied = spec_first_building_edge(
            d0.character_manager.chr(id).building_relations@,
            BuildingRelationType::Occupant,
        );
        // the occupancy step touched only the dead character's record and, in
        // the building store, only the home lists of the occupied building
        assert(forall|i: int|
            0 <= i < d0.character_manager.characters@.len() && i != id.0
                ==> #[trigger] g1.character_manager.characters@[i]
                == d0.character_manager.characters@[i]);
        assert forall|q: int|
            0 <= q < d0.building_manager.buildings@.len() implies #[trigger] g1.building_manager
            .buildings@[q] == (Building {
            usage: g1.building_manager.buildings@[q].usage,
            ..d0.building_manager.buildings@[q]
        }) by {
            match occupied {
                Some(ob) => {
                    if q != ob.0 {
                        assert(g1.building_manager.buildings@[q]
                            == d0.building_manager.buildings@[q]);
                    }
                },
                None => {
                    assert(g1.building_manager == d0.building_manager);
                },
            }
        }
        // the dead character's Owner edges survive the occupancy filter
        assert forall|b: BuildingId|
            #[trigger] g1.character_manager.chr(id).has_building_edge(
                BuildingRelationType::Owner,
                b,
            ) <==> d0.character_manager.chr(id).has_building_edge(
            BuildingRelationType::Owner,
            b,
        ) by {
            let rels = g1.character_manager.chr(id).building_relations@;
            let old_rels = d0.character_manager.chr(id).building_relations@;
            let pred = |r: crate::building_relation::BuildingRelation|
                r.relation_type != BuildingRelationType::Occupant;
            if d0.character_manager.chr(id).has_building_edge(BuildingRelationType::Owner, b) {
                let e = choose|e: int|
                    0 <= e < old_rels.len() && old_rels[e]
                        == (crate::building_relation::BuildingRelation {
                        relation_type: BuildingRelationType::Owner,
                        id: b,
                    });
                old_rels.lemma_filter_contains(pred, e);
                let e2 = choose|e2: int| 0 <= e2 < rels.len() && rels[e2] == old_rels[e];
            }
            if g1.character_manager.chr(id).has_building_edge(BuildingRelationType::Owner, b) {
                let e = choose|e: int|
                    0 <= e < rels.len() && rels[e]
                        == (crate::building_relation::BuildingRelation {
                        relation_type: BuildingRelationType::Owner,
                        id: b,
                    });
                old_rels.lemma_filter_contains_rev(pred, rels[e]);
                let e2 = choose|e2: int| 0 <= e2 < old_rels.len() && old_rels[e2] == rels[e];
            }
        }
        // all building fields but the owner and the dwelling lists are frozen
        assert forall|q: int|
            0 <= q < d0.building_manager.buildings@.len() implies #[trigger] data
            .building_manager.buildings@[q] == (Building {
            owner: data.building_manager.buildings@[q].owner,
            usage: data.building_manager.buildings@[q].usage,
            ..d0.building_manager.buildings@[q]
        }) by {
            assert(data.building_manager.buildings@[q] == (Building {
                owner: data.building_manager.buildings@[q].owner,
                ..g1.building_manager.buildings@[q]
            }));
        }
        // any building edge still held traces back to the earlier state
        lemma_building_subset_compose(
            d0.character_manager,
            g1.character_manager,
            data.character_manager,
            id,
        );
        if !(has_living_spouse(g1.character_manager, id) || has_living_child(
            g1.character_manager,
            id,
        ) || has_living_grandchild(g1.character_manager, id)) {
            assert(*data == g1);
            assert forall|q: int|
                0 <= q < d0.building_manager.buildings@.len() implies #[trigger] data
                .building_manager.buildings@[q].owner == d0.building_manager.buildings@[q].owner
                by {}
        }
        if has_living_spouse(g1.character_manager, id) || has_living_child(
            g1.character_manager,
            id,
        ) || has_living_grandchild(g1.character_manager, id) {
            let h = choose|h: CharacterId|
                {
                    &&& #[trigger] spec_heir_candidate(g1.character_manager, id, h)
                    &&& h != id
                    &&& forall|b: BuildingId|
                        !#[trigger] data.character_manager.chr(id).has_building_edge(
                            BuildingRelationType::Owner,
                            b,
                        )
                    &&& forall|b: BuildingId|
                        #[trigger] data.character_manager.chr(h).has_building_edge(
                            BuildingRelationType::Owner,
                            b,
                        ) <==> g1.character_manager.chr(h).has_building_edge(
                            BuildingRelationType::Owner,
                            b,
                        ) || g1.character_manager.chr(id).has_building_edge(
                            BuildingRelationType::Owner,
                            b,
                        )
                    &&& forall|b: BuildingId|
                        g1.character_manager.chr(id).has_building_edge(
                            BuildingRelationType::Owner,
                            b,
                        ) ==> #[trigger] data.building_manager.bld(b).owner == h
                    &&& forall|q: int|
                        0 <= q < g1.building_manager.buildings@.len() && !g1.character_manager
                            .chr(id).has_building_edge(
                            BuildingRelationType::Owner,
                            BuildingId(q as usize),
                        ) ==> #[trigger] data.building_manager.buildings@[q].owner
                            == g1.building_manager.buildings@[q].owner
                    &&& exists|transferred: Seq<BuildingId>|
                        {
                            &&& #[trigger] transferred.no_duplicates()
                            &&& forall|b: BuildingId| #[trigger] transferred.contains(b)
                                <==> g1.character_manager.chr(id).has_building_edge(
                                BuildingRelationType::Owner,
                                b,
                            )
                            &&& data.character_manager.chr(h).building_relations@
                                == g1.character_manager.chr(h).building_relations@
                                + transferred.map_values(
                                |b: BuildingId| crate::building_relation::BuildingRelation {
                                    relation_type: BuildingRelationType::Owner,
                                    id: b,
                                },
                            )
                        }
                    &&& forall|i: int|
                        0 <= i < g1.character_manager.characters@.len() && i != id.0 && i
                            != h.0 ==> #[trigger] data.character_manager.characters@[i]
                            == g1.character_manager.characters@[i]
                };
            assert(spec_heir_besides(d0.character_manager, id, h));
            assert forall|b: BuildingId|
                d0.character_manager.chr(id).has_building_edge(
                    BuildingRelationType::Owner,
                    b,
                ) implies #[trigger] data.building_manager.bld(b).owner == h
                && data.character_manager.chr(h).has_building_edge(
                BuildingRelationType::Owner,
                b,
            ) by {
                assert(g1.character_manager.chr(id).has_building_edge(
                    BuildingRelationType::Owner,
                    b,
                ));
            }
            assert forall|q: int|
                0 <= q < d0.building_manager.buildings@.len() && !d0.character_manager.chr(
                    id,
                ).has_building_edge(
                    BuildingRelationType::Owner,
                    BuildingId(q as usize),
                ) implies #[trigger] data.building_manager.buildings@[q].owner
                == d0.building_manager.buildings@[q].owner by {
                assert(!g1.character_manager.chr(id).has_building_edge(
                    BuildingRelationType::Owner,
                    BuildingId(q as usize),
                ));
            }
            let tr = choose|transferred: Seq<BuildingId>|
                {
                    &&& #[trigger] transferred.no_duplicates()
                    &&& forall|b: BuildingId| #[trigger] transferred.contains(b)
                        <==> g1.character_manager.chr(id).has_building_edge(
                        BuildingRelationType::Owner,
                        b,
                    )
                    &&& data.character_manager.chr(h).building_relations@
                        == g1.character_manager.chr(h).building_relations@
                        + transferred.map_values(
                        |b: BuildingId| crate::building_relation::BuildingRelation {
                            relation_type: BuildingRelationType::Owner,
                            id: b,
                        },
                    )
                };
            assert(g1.character_manager.characters@[h.0 as int]
                == d0.character_manager.characters@[h.0 as int]);
            assert forall|b: BuildingId| #[trigger] tr.contains(b)
                <==> d0.character_manager.chr(id).has_building_edge(
                BuildingRelationType::Owner,
                b,
            ) by {}
            assert(data.character_manager.chr(h).building_relations@
                == d0.character_manager.chr(h).building_relations@ + tr.map_values(
                |b: BuildingId| crate::building_relation::BuildingRelation {
                    relation_type: BuildingRelationType::Owner,
                    id: b,
                },
            ));
        }
    }
}

/// A building edge held after an occupancy filter and an inheritance traces
/// back to an edge held before them, or to an ownership the dead character
/// gave up.
proof fn lemma_building_subset_compose(
    d0cm: CharacterMgr,
    g1cm: CharacterMgr,
    fincm: CharacterMgr,
    id: CharacterId,
)
    requires
        d0cm.characters@.len() == g1cm.characters@.len(),
        g1cm.characters@.len() == fincm.characters@.len(),
        id.0 < d0cm.characters@.len(),
        g1cm.chr(id).building_relations@ == d0cm.chr(id).building_relations@.filter(
            |r: crate::building_relation::BuildingRelation|
                r.relation_type != BuildingRelationType::Occupant,
        ),
        forall|i: int|
            0 <= i < d0cm.characters@.len() && i != id.0 ==> #[trigger] g1cm.characters@[i]
                == d0cm.characters@[i],
        forall|i: int, t: crate::building_relation::BuildingRelationType, b: BuildingId|
            0 <= i < g1cm.characters@.len() && #[trigger] fincm.characters@[i]
                .has_building_edge(t, b) ==> (g1cm.characters@[i].has_building_edge(t, b) || (t
                == BuildingRelationType::Owner && g1cm.chr(id).has_building_edge(
                BuildingRelationType::Owner,
                b,
            ))),
    ensures
        forall|i: int, t: crate::building_relation::BuildingRelationType, b: BuildingId|
            0 <= i < d0cm.characters@.len() && #[trigger] fincm.characters@[i]
                .has_building_edge(t, b) ==> (d0cm.characters@[i].has_building_edge(t, b) || (
            t == BuildingRelationType::Owner && d0cm.chr(id).has_building_edge(
                BuildingRelationType::Owner,
                b,
            ))),
{
    let pred = |r: crate::building_relation::BuildingRelation|
        r.relation_type != BuildingRelationType::Occupant;
    assert forall|t: crate::building_relation::BuildingRelationType, b: BuildingId|
        #[trigger] g1cm.chr(id).has_building_edge(t, b) implies d0cm.chr(id).has_building_edge(
        t,
        b,
    ) by {
        let rels = g1cm.chr(id).building_relations@;
        let old_rels = d0cm.chr(id).building_relations@;
        let e = choose|e: int|
            0 <= e < rels.len() && rels[e] == (crate::building_relation::BuildingRelation {
                relation_type: t,
                id: b,
            });
        old_rels.lemma_filter_contains_rev(pred, rels[e]);
        let e2 = choose|e2: int| 0 <= e2 < old_rels.len() && old_rels[e2] == rels[e];
    }
    assert forall|i: int, t: crate::building_relation::BuildingRelationType, b: BuildingId|
        0 <= i < d0cm.characters@.len() && #[trigger] fincm.characters@[i].has_building_edge(
            t,
            b,
        ) implies (d0cm.characters@[i].has_building_edge(t, b) || (t
        == BuildingRelationType::Owner && d0cm.chr(id).has_building_edge(
        BuildingRelationType::Owner,
        b,
    ))) by {
        if g1cm.characters@[i].has_building_edge(t, b) {
            if i == id.0 {
                assert(g1cm.chr(id).has_building_edge(t, b));
            } else {
                assert(g1cm.characters@[i] == d0cm.characters@[i]);
            }
        }
    }
}

} // verus!
