use town_simulation::character::{CharacterId, CharacterMgr};
use town_simulation::birth::birth_with_relations;
use town_simulation::character_name::CharacterName;
use town_simulation::character_usecase::{add_relation, get_name, set_name};
use town_simulation::marriage::{get_married_couples, get_unmarried, marry};
use town_simulation::relation::Relation;
use town_simulation::relation::RelationType::{InLaw, Relative};
use town_simulation::relation::RelativeType;
use town_simulation::relation::RelativeType::{
    Child, Cousin, GrandChild, GrandParent, Nibling, Parent, Pibling, Sibling,
};
use town_simulation::relation::RelationType;
use town_simulation::relation_check::{get_relation, is_relative};
use town_simulation::relation_get::get_relatives;
use town_simulation::relation_get::{
    get_children, get_cousins, get_grandchildren, get_grandparents, get_niblings, get_parents,
    get_piblings, get_relation_to_in_laws, get_shared_children, get_siblings, get_spouses,
};

fn assert_ids(left: Vec<CharacterId>, right: &[CharacterId]) {
    assert_eq!(left.len(), right.len(), "id lists differ in size");
    for id in right {
        assert!(left.contains(id), "id list misses an entry");
    }
}

fn assert_pairs(left: Vec<(CharacterId, CharacterId)>, right: &[(CharacterId, CharacterId)]) {
    assert_eq!(left.len(), right.len(), "pair lists differ in size");
    for pair in right {
        assert!(left.contains(pair), "pair list misses an entry");
    }
}

#[test]
fn relation_test_relations() {
    let mut manager = CharacterMgr::default();

    // generation 0
    let grandfather0 = manager.create();
    let grandmother0 = manager.create();
    let grandfather1 = manager.create();
    let grandmother1 = manager.create();

    // generation 1
    let father = birth_with_relations(&mut manager, grandfather0, grandmother0);
    let aunt = birth_with_relations(&mut manager, grandfather0, grandmother0);
    let mother = birth_with_relations(&mut manager, grandfather1, grandmother1);
    let uncle = birth_with_relations(&mut manager, grandfather1, grandmother1);
    let husband_aunt = manager.create();

    // generation 2
    let character0 = birth_with_relations(&mut manager, father, mother);
    let character1 = birth_with_relations(&mut manager, father, mother);
    let character2 = birth_with_relations(&mut manager, father, mother);
    let cousin = birth_with_relations(&mut manager, husband_aunt, aunt);

    // children of generation 0
    assert_ids(get_children(&manager, grandfather0), &[aunt, father]);
    assert_ids(get_children(&manager, grandmother0), &[aunt, father]);
    assert_ids(get_children(&manager, grandfather1), &[mother, uncle]);
    assert_ids(get_children(&manager, grandmother1), &[mother, uncle]);

    assert_ids(
        get_shared_children(&manager, grandfather0, grandmother0),
        &[aunt, father],
    );
    assert_ids(
        get_shared_children(&manager, grandfather1, grandmother1),
        &[mother, uncle],
    );

    // grandchildren of generation 0
    assert_ids(
        get_grandchildren(&manager, grandfather0),
        &[character0, character1, character2, cousin],
    );
    assert_ids(
        get_grandchildren(&manager, grandmother0),
        &[character0, character1, character2, cousin],
    );
    assert_ids(
        get_grandchildren(&manager, grandfather1),
        &[character0, character1, character2],
    );
    assert_ids(
        get_grandchildren(&manager, grandmother1),
        &[character0, character1, character2],
    );

    // parents of generation 1
    assert_ids(get_parents(&manager, father), &[grandfather0, grandmother0]);
    assert_ids(get_parents(&manager, aunt), &[grandfather0, grandmother0]);
    assert_ids(get_parents(&manager, mother), &[grandfather1, grandmother1]);
    assert_ids(get_parents(&manager, husband_aunt), &[]);

    // children of generation 1
    assert_ids(
        get_children(&manager, father),
        &[character0, character1, character2],
    );
    assert_ids(
        get_children(&manager, mother),
        &[character0, character1, character2],
    );
    assert_ids(get_children(&manager, husband_aunt), &[cousin]);
    assert_ids(get_children(&manager, aunt), &[cousin]);
    assert_ids(get_children(&manager, uncle), &[]);

    assert_ids(
        get_shared_children(&manager, father, mother),
        &[character0, character1, character2],
    );
    assert_ids(get_shared_children(&manager, husband_aunt, aunt), &[cousin]);

    // siblings of generation 1
    assert_ids(get_siblings(&manager, father), &[aunt]);
    assert_ids(get_siblings(&manager, aunt), &[father]);
    assert_ids(get_siblings(&manager, mother), &[uncle]);
    assert_ids(get_siblings(&manager, uncle), &[mother]);
    assert_ids(get_siblings(&manager, husband_aunt), &[]);

    // niblings of generation 1
    assert_ids(get_niblings(&manager, father), &[cousin]);
    assert_ids(get_niblings(&manager, mother), &[]);
    assert_ids(
        get_niblings(&manager, aunt),
        &[character0, character1, character2],
    );
    assert_ids(
        get_niblings(&manager, uncle),
        &[character0, character1, character2],
    );
    assert_ids(get_niblings(&manager, husband_aunt), &[]);

    // parents of generation 2
    assert_ids(get_parents(&manager, character0), &[father, mother]);
    assert_ids(get_parents(&manager, character1), &[father, mother]);
    assert_ids(get_parents(&manager, character2), &[father, mother]);
    assert_ids(get_parents(&manager, cousin), &[husband_aunt, aunt]);

    // siblings of generation 2
    assert_ids(get_siblings(&manager, character0), &[character1, character2]);
    assert_ids(get_siblings(&manager, character1), &[character0, character2]);
    assert_ids(get_siblings(&manager, character2), &[character0, character1]);
    assert_ids(get_siblings(&manager, cousin), &[]);

    // piblings of generation 2
    assert_ids(get_piblings(&manager, character0), &[aunt, uncle]);
    assert_ids(get_piblings(&manager, character1), &[aunt, uncle]);
    assert_ids(get_piblings(&manager, character2), &[aunt, uncle]);
    assert_ids(get_piblings(&manager, cousin), &[father]);

    // cousins of generation 2
    assert_ids(get_cousins(&manager, character0), &[cousin]);
    assert_ids(get_cousins(&manager, character1), &[cousin]);
    assert_ids(get_cousins(&manager, character2), &[cousin]);
    assert_ids(
        get_cousins(&manager, cousin),
        &[character0, character1, character2],
    );

    // grandparents of generation 2
    assert_ids(
        get_grandparents(&manager, character0),
        &[grandfather0, grandmother0, grandfather1, grandmother1],
    );
    assert_ids(
        get_grandparents(&manager, character1),
        &[grandfather0, grandmother0, grandfather1, grandmother1],
    );
    assert_ids(
        get_grandparents(&manager, character2),
        &[grandfather0, grandmother0, grandfather1, grandmother1],
    );
    assert_ids(
        get_grandparents(&manager, cousin),
        &[grandfather0, grandmother0],
    );
}

#[test]
fn test_get_relatives() {
    let mut manager = CharacterMgr::default();
    let grandfather0 = manager.create();
    let grandmother0 = manager.create();
    let father = birth_with_relations(&mut manager, grandfather0, grandmother0);
    let aunt = birth_with_relations(&mut manager, grandfather0, grandmother0);
    let mother = manager.create();
    let character0 = birth_with_relations(&mut manager, father, mother);

    assert_ids(
        get_relatives(&manager, character0),
        &[father, mother, grandfather0, grandmother0, aunt],
    );
}

#[test]
fn test_get_relation() {
    let mut manager = CharacterMgr::default();

    // generation 0
    let grandfather = manager.create();
    let grandmother = manager.create();

    // generation 1
    let father = birth_with_relations(&mut manager, grandfather, grandmother);
    let aunt = birth_with_relations(&mut manager, grandfather, grandmother);
    let mother = manager.create();
    let husband_aunt = manager.create();

    // generation 2
    let character = birth_with_relations(&mut manager, father, mother);
    let sibling = birth_with_relations(&mut manager, father, mother);
    let cousin = birth_with_relations(&mut manager, husband_aunt, aunt);

    assert_relation(&manager, character, grandfather, Some(Relative(GrandParent)));
    assert_relation(&manager, character, mother, Some(Relative(Parent)));
    assert_relation(&manager, character, aunt, Some(Relative(Pibling)));
    assert_relation(&manager, character, husband_aunt, None);
    assert_relation(&manager, character, sibling, Some(Relative(Sibling)));
    assert_relation(&manager, character, cousin, Some(Relative(Cousin)));

    assert_relation(&manager, grandmother, character, Some(Relative(GrandChild)));
    assert_relation(&manager, father, character, Some(Relative(Child)));
    assert_relation(&manager, aunt, character, Some(Relative(Nibling)));
}

fn assert_relation(
    manager: &CharacterMgr,
    from: CharacterId,
    to: CharacterId,
    result: Option<RelationType>,
) {
    assert_eq!(get_relation(&manager, from, to), result);
    assert_eq!(is_relative(&manager, from, to), result.is_some());
}

#[test]
fn husband_and_wife_are_spouses() {
    let mut manager = CharacterMgr::default();

    let husband = manager.create();
    let wife = manager.create();

    marry(&mut manager, husband, wife);

    assert_ids(get_spouses(&manager, husband), &[wife]);
    assert_ids(get_spouses(&manager, wife), &[husband]);
}

#[test]
fn birth_links_parents_and_siblings() {
    let mut manager = CharacterMgr::default();

    let a = manager.create();
    let b = manager.create();
    marry(&mut manager, a, b);
    assert_ids(get_spouses(&manager, a), &[b]);
    assert_ids(get_spouses(&manager, b), &[a]);

    let c = birth_with_relations(&mut manager, a, b);
    assert_ids(get_parents(&manager, c), &[a, b]);

    let d = birth_with_relations(&mut manager, a, b);
    assert_ids(get_siblings(&manager, d), &[c]);
    assert_ids(get_siblings(&manager, c), &[d]);
}

#[test]
fn husband_and_wife_are_couples() {
    let mut manager = CharacterMgr::default();

    let husband0 = manager.create();
    let wife0 = manager.create();
    let wife1 = manager.create();
    let husband1 = manager.create();
    manager.create();

    marry(&mut manager, husband0, wife0);
    marry(&mut manager, husband1, wife1);

    assert_pairs(
        get_married_couples(&manager),
        &[(husband0, wife0), (wife1, husband1)],
    );
}

#[test]
fn not_married_characters_are_unmarried() {
    let mut manager = CharacterMgr::default();

    let husband = manager.create();
    let wife = manager.create();
    let character = manager.create();

    assert_ids(get_unmarried(&manager), &[husband, wife, character]);

    marry(&mut manager, husband, wife);

    assert_ids(get_unmarried(&manager), &[character]);
}

#[test]
fn wife_takes_name_of_husband() {
    let mut manager = CharacterMgr::default();

    let husband = manager.create();
    let wife = manager.create();

    let husband_name = CharacterName::standard("A", "B");
    let wive_name = CharacterName::standard("C", "D");
    let married_name = CharacterName::married("C", "B", "D");

    set_name(&mut manager, husband, husband_name.clone());
    set_name(&mut manager, wife, wive_name);

    marry(&mut manager, husband, wife);

    assert_eq!(get_name(&manager, husband), &husband_name);
    assert_eq!(get_name(&manager, wife), &married_name);
}

#[test]
fn relatives_of_spouse_become_in_laws() {
    let mut manager = CharacterMgr::default();

    let husband = manager.create();
    let wife = manager.create();

    let husband_parent = manager.create();
    let wife_parent = manager.create();

    add_relation(&mut manager, husband, husband_parent, Relative(Child));
    add_relation(&mut manager, wife, wife_parent, Relative(Child));

    marry(&mut manager, husband, wife);

    assert_in_law(&manager, husband, wife_parent, Parent);
    assert_in_law(&manager, wife, husband_parent, Parent);
}

fn assert_in_law(
    manager: &CharacterMgr,
    character: CharacterId,
    in_law: CharacterId,
    in_law_type: RelativeType,
) {
    assert_eq!(
        get_relation_to_in_laws(&manager, character),
        vec![Relation::new(InLaw(in_law_type), in_law)]
    );
    assert_eq!(
        get_relation_to_in_laws(&manager, in_law),
        vec![Relation::new(InLaw(in_law_type.reverse()), character)]
    );
}

#[test]
fn reverse_twice_is_identity() {
    let kinds = [
        GrandParent, Pibling, Nibling, Parent, Cousin, Sibling, Child, GrandChild,
    ];
    for kind in kinds {
        assert_eq!(kind.reverse().reverse(), kind);
        assert_eq!(Relative(kind).reverse().reverse(), Relative(kind));
        assert_eq!(InLaw(kind).reverse().reverse(), InLaw(kind));
    }
    assert_eq!(RelationType::Spouse.reverse(), RelationType::Spouse);
}

#[test]
fn birth_ties_in_laws_of_existing_relatives() {
    let mut manager = CharacterMgr::default();

    let grandfather = manager.create();
    let grandmother = manager.create();
    let father = birth_with_relations(&mut manager, grandfather, grandmother);
    let mother = manager.create();
    let aunt = birth_with_relations(&mut manager, grandfather, grandmother);
    let husband_aunt = manager.create();
    marry(&mut manager, husband_aunt, aunt);

    let child = birth_with_relations(&mut manager, father, mother);

    // the aunt's spouse is no blood relative, so the child records an in-law
    assert_eq!(
        get_relation(&manager, child, husband_aunt),
        Some(InLaw(Pibling))
    );
    assert_eq!(
        get_relation(&manager, husband_aunt, child),
        Some(InLaw(Nibling))
    );
}
