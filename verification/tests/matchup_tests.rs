use pokemon_assistant::matchup::{
    build_matchup_details, is_favorable, is_neutral, is_unfavorable, matchup_source, record_matchup,
    relations_within_limit, MatchupSource,
};
use pokemon_assistant::model::{DamageRelations, Factor, MatchupEntry, PokemonInfo, TypeInfo};

fn names(list: &[&str]) -> Vec<String> {
    list.iter().map(|s| s.to_string()).collect()
}

fn type_info(name: &str, rel: [&[&str]; 6]) -> TypeInfo {
    TypeInfo {
        name: name.to_string(),
        display_name: name.to_string(),
        image: String::new(),
        damage_relations: DamageRelations {
            attack_double: names(rel[0]),
            attack_half: names(rel[1]),
            attack_none: names(rel[2]),
            defense_double: names(rel[3]),
            defense_half: names(rel[4]),
            defense_none: names(rel[5]),
        },
    }
}

fn fire() -> TypeInfo {
    type_info(
        "fire",
        [
            &["grass", "ice", "bug", "steel"],
            &["fire", "water", "rock", "dragon"],
            &[],
            &["ground", "rock", "water"],
            &["fire", "grass", "ice", "bug", "steel", "fairy"],
            &[],
        ],
    )
}

fn flying() -> TypeInfo {
    type_info(
        "flying",
        [
            &["grass", "fighting", "bug"],
            &["electric", "rock", "steel"],
            &[],
            &["electric", "ice", "rock"],
            &["grass", "fighting", "bug"],
            &["ground"],
        ],
    )
}

fn factor(zero: bool, exponent: i64) -> Factor {
    Factor { zero, exponent }
}

fn entry<'a>(entries: &'a [MatchupEntry], name: &str) -> Option<&'a MatchupEntry> {
    entries.iter().find(|e| e.name == name)
}

#[test]
fn matchup_single_type_fire() {
    let details = build_matchup_details(&vec![fire()]);
    let listed: Vec<&str> = details.entries.iter().map(|e| e.name.as_str()).collect();
    assert_eq!(
        listed,
        vec!["bug", "dragon", "fairy", "fire", "grass", "ground", "ice", "rock", "steel", "water"]
    );
    let grass = entry(&details.entries, "grass").unwrap();
    assert_eq!(grass.attack, factor(false, 1));
    assert_eq!(grass.defense, factor(false, -1));
    let water = entry(&details.entries, "water").unwrap();
    assert_eq!(water.attack, factor(false, -1));
    assert_eq!(water.defense, factor(false, 1));
    assert_eq!(details.strong_against, names(&["bug", "fairy", "grass", "ice", "steel"]));
    assert_eq!(details.weak_against, names(&["dragon", "ground", "rock", "water"]));
}

#[test]
fn matchup_dual_type_multiplies() {
    let details = build_matchup_details(&vec![fire(), flying()]);
    let grass = entry(&details.entries, "grass").unwrap();
    assert_eq!(grass.attack, factor(false, 2));
    assert_eq!(grass.defense, factor(false, -2));
    let rock = entry(&details.entries, "rock").unwrap();
    assert_eq!(rock.attack, factor(false, -2));
    assert_eq!(rock.defense, factor(false, 2));
    let ground = entry(&details.entries, "ground").unwrap();
    assert_eq!(ground.attack, factor(false, 0));
    assert_eq!(ground.defense, factor(true, 1));
    assert!(details.strong_against.contains(&"ground".to_string()));
    // Steel: fire attack x2, flying attack x0.5 -> 1; defense: fire resists -> 0.5.
    let steel = entry(&details.entries, "steel").unwrap();
    assert_eq!(steel.attack, factor(false, 0));
    assert_eq!(steel.defense, factor(false, -1));
}

#[test]
fn matchup_neutral_types_are_left_out() {
    let a = type_info("a", [&["x"], &[], &[], &[], &[], &[]]);
    let b = type_info("b", [&[], &["x"], &[], &[], &[], &[]]);
    let details = build_matchup_details(&vec![a, b]);
    assert!(details.entries.is_empty());
    assert!(details.strong_against.is_empty());
    assert!(details.weak_against.is_empty());
}

#[test]
fn matchup_no_damage_is_zero() {
    let ghost = type_info("ghost", [&["ghost"], &["dark"], &["normal"], &["ghost", "dark"], &["poison", "bug"], &["normal", "fighting"]]);
    let details = build_matchup_details(&vec![ghost]);
    let normal = entry(&details.entries, "normal").unwrap();
    assert_eq!(normal.attack, factor(true, 0));
    assert_eq!(normal.defense, factor(true, 0));
    // Zero both ways: favorable (takes no damage) and unfavorable (deals none): neither list.
    assert!(!details.strong_against.contains(&"normal".to_string()));
    assert!(!details.weak_against.contains(&"normal".to_string()));
    assert!(details.strong_against.contains(&"fighting".to_string()));
}

#[test]
fn matchup_ignores_type_order() {
    let one = build_matchup_details(&vec![fire(), flying()]);
    let two = build_matchup_details(&vec![flying(), fire()]);
    assert_eq!(one, two);
}

#[test]
fn matchup_no_types() {
    let details = build_matchup_details(&vec![]);
    assert!(details.entries.is_empty());
}

#[test]
fn factor_predicates() {
    assert!(is_neutral(factor(false, 0)));
    assert!(!is_neutral(factor(true, 0)));
    assert!(!is_neutral(factor(false, 1)));
    let e = MatchupEntry { name: "x".to_string(), attack: factor(false, 1), defense: factor(false, 0) };
    assert!(is_favorable(&e));
    assert!(!is_unfavorable(&e));
    let e = MatchupEntry { name: "x".to_string(), attack: factor(true, 3), defense: factor(false, 0) };
    assert!(!is_favorable(&e));
    assert!(is_unfavorable(&e));
    let e = MatchupEntry { name: "x".to_string(), attack: factor(false, 0), defense: factor(false, -1) };
    assert!(is_favorable(&e));
    assert!(!is_unfavorable(&e));
}

fn ghost() -> TypeInfo {
    type_info(
        "ghost",
        [&["psychic", "ghost"], &["dark"], &["normal"], &["ghost", "dark"], &["bug", "poison"], &["normal", "fighting"]],
    )
}

fn charizard() -> PokemonInfo {
    PokemonInfo {
        id: 6,
        name: "charizard".to_string(),
        display_name: "Charizard".to_string(),
        image: String::new(),
        types: vec!["fire".to_string(), "flying".to_string()],
        matchup_details: None,
    }
}

#[test]
fn matchup_ignores_order_of_three_types() {
    let base = build_matchup_details(&vec![fire(), flying(), ghost()]);
    for order in [
        vec![fire(), ghost(), flying()],
        vec![flying(), fire(), ghost()],
        vec![flying(), ghost(), fire()],
        vec![ghost(), fire(), flying()],
        vec![ghost(), flying(), fire()],
    ] {
        assert_eq!(build_matchup_details(&order), base);
    }
    let normal = entry(&base.entries, "normal").unwrap();
    assert_eq!(normal.attack, factor(true, 0));
}

#[test]
fn relations_within_limit_small_lists() {
    assert!(relations_within_limit(&vec![fire(), flying()]));
    assert!(relations_within_limit(&vec![]));
}

#[test]
fn matchup_computed_then_stored() {
    let pokemon = charizard();
    assert!(matches!(matchup_source(&pokemon), MatchupSource::Compute));
    let types = vec![fire(), flying()];
    let (record, details) = record_matchup(pokemon, &types);
    assert_eq!(details, build_matchup_details(&types));
    assert_eq!(record.matchup_details, Some(details.clone()));
    assert_eq!(record.id, 6);
    assert_eq!(record.types, vec!["fire".to_string(), "flying".to_string()]);
    match matchup_source(&record) {
        MatchupSource::Stored(stored) => assert_eq!(stored, details),
        MatchupSource::Compute => panic!("the matchup was stored"),
    }
}
