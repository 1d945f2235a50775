use pokemon_assistant::api::{
    api_url, is_success_status, move_info_from_api, move_path, pokemon_info_from_api, pokemon_path,
    type_info_from_api, type_path, GenerationIxSprites, MoveApiResponse, NamedApiResource,
    OfficialArtwork, PokemonApiResponse, PokemonOtherSprites, PokemonSprites, PokemonTypeSlot,
    ScarletVioletSprites, TypeApiResponse, TypeDamageRelationsApi, TypeSprites,
};
use pokemon_assistant::lookup::{
    badges_of, into_badge, matchup_lookup_key, move_not_found_message, pokemon_not_found_message,
    pokemon_view, team_details_lookup_key, team_pokemon_details,
};
use pokemon_assistant::matchup::build_matchup_details;
use pokemon_assistant::model::{DamageRelations, PokemonInfo, TypeInfo};

fn res(name: &str) -> NamedApiResource {
    NamedApiResource { name: name.to_string() }
}

fn electric() -> TypeInfo {
    TypeInfo {
        name: "electric".to_string(),
        display_name: "Electric".to_string(),
        image: "icon.png".to_string(),
        damage_relations: DamageRelations {
            attack_double: vec!["water".to_string(), "flying".to_string()],
            attack_half: vec!["electric".to_string(), "grass".to_string(), "dragon".to_string()],
            attack_none: vec!["ground".to_string()],
            defense_double: vec!["ground".to_string()],
            defense_half: vec!["flying".to_string(), "steel".to_string(), "electric".to_string()],
            defense_none: vec![],
        },
    }
}

fn pikachu_info() -> PokemonInfo {
    PokemonInfo {
        id: 25,
        name: "pikachu".to_string(),
        display_name: "Pikachu".to_string(),
        image: "art.png".to_string(),
        types: vec!["electric".to_string()],
        matchup_details: None,
    }
}

#[test]
fn pokemon_info_from_reply() {
    let reply = PokemonApiResponse {
        id: 6,
        name: "charizard".to_string(),
        sprites: PokemonSprites {
            other: PokemonOtherSprites { official_artwork: OfficialArtwork { front_default: Some("c.png".to_string()) } },
        },
        types: vec![PokemonTypeSlot { type_info: res("fire") }, PokemonTypeSlot { type_info: res("flying") }],
    };
    let info = pokemon_info_from_api(&reply);
    assert_eq!(info.id, 6);
    assert_eq!(info.name, "charizard");
    assert_eq!(info.display_name, "Charizard");
    assert_eq!(info.image, "c.png");
    assert_eq!(info.types, vec!["fire".to_string(), "flying".to_string()]);
    assert!(info.matchup_details.is_none());
}

#[test]
fn pokemon_info_without_artwork_has_empty_image() {
    let reply = PokemonApiResponse {
        id: 1,
        name: "bulbasaur".to_string(),
        sprites: PokemonSprites { other: PokemonOtherSprites { official_artwork: OfficialArtwork { front_default: None } } },
        types: vec![],
    };
    assert_eq!(pokemon_info_from_api(&reply).image, "");
}

#[test]
fn type_info_from_reply() {
    let reply = TypeApiResponse {
        name: "ground".to_string(),
        sprites: TypeSprites { generation_ix: GenerationIxSprites { scarlet_violet: ScarletVioletSprites { name_icon: None } } },
        damage_relations: TypeDamageRelationsApi {
            double_damage_to: vec![res("fire"), res("electric")],
            half_damage_to: vec![res("grass")],
            no_damage_to: vec![res("flying")],
            double_damage_from: vec![res("water")],
            half_damage_from: vec![res("poison")],
            no_damage_from: vec![res("electric")],
        },
    };
    let info = type_info_from_api(&reply);
    assert_eq!(info.name, "ground");
    assert_eq!(info.display_name, "Ground");
    assert_eq!(info.image, "");
    assert_eq!(info.damage_relations.attack_double, vec!["fire".to_string(), "electric".to_string()]);
    assert_eq!(info.damage_relations.attack_half, vec!["grass".to_string()]);
    assert_eq!(info.damage_relations.attack_none, vec!["flying".to_string()]);
    assert_eq!(info.damage_relations.defense_double, vec!["water".to_string()]);
    assert_eq!(info.damage_relations.defense_half, vec!["poison".to_string()]);
    assert_eq!(info.damage_relations.defense_none, vec!["electric".to_string()]);
}

#[test]
fn move_info_from_reply() {
    let reply = MoveApiResponse { id: 85, name: "thunderbolt".to_string(), type_info: res("electric") };
    let info = move_info_from_api(&reply);
    assert_eq!(info.id, 85);
    assert_eq!(info.name, "thunderbolt");
    assert_eq!(info.move_type, "electric");
}

#[test]
fn api_addresses() {
    assert_eq!(api_url(&pokemon_path("pikachu")), "https://pokeapi.co/api/v2/pokemon/pikachu");
    assert_eq!(api_url(&type_path("fire")), "https://pokeapi.co/api/v2/type/fire");
    assert_eq!(api_url(&move_path("tackle")), "https://pokeapi.co/api/v2/move/tackle");
}

#[test]
fn success_statuses() {
    assert!(is_success_status(200));
    assert!(is_success_status(204));
    assert!(!is_success_status(199));
    assert!(!is_success_status(300));
    assert!(!is_success_status(404));
}

#[test]
fn matchup_key_trims_and_lowercases() {
    assert_eq!(matchup_lookup_key("  PikaChu ").unwrap(), "pikachu");
    assert_eq!(matchup_lookup_key(" Mr Mime").unwrap(), "mr mime");
    assert_eq!(matchup_lookup_key("25").unwrap(), "25");
    assert_eq!(matchup_lookup_key("   ").unwrap_err(), "Please enter a Pokemon name or ID.");
}

#[test]
fn team_details_key_normalizes() {
    assert_eq!(team_details_lookup_key(" Mr  Mime ").unwrap(), "mr-mime");
    assert_eq!(team_details_lookup_key("").unwrap_err(), "Please enter a Pokemon name.");
}

#[test]
fn not_found_messages_quote_trimmed_names() {
    assert_eq!(
        pokemon_not_found_message("  Pikachoo ", "PokeAPI returned status 404 Not Found"),
        "Pokemon 'Pikachoo' not found: PokeAPI returned status 404 Not Found"
    );
    assert_eq!(move_not_found_message(" Thundr "), "Move 'Thundr' not found");
}

#[test]
fn badges_copy_type_fields() {
    let badge = into_badge(&electric());
    assert_eq!(badge.name, "electric");
    assert_eq!(badge.display_name, "Electric");
    assert_eq!(badge.image, "icon.png");
    assert_eq!(badges_of(&vec![electric(), electric()]).len(), 2);
}

#[test]
fn team_details_of_pokemon() {
    let details = team_pokemon_details(pikachu_info(), &vec![electric()]);
    assert_eq!(details.name, "pikachu");
    assert_eq!(details.display_name, "Pikachu");
    assert_eq!(details.image, "art.png");
    assert_eq!(details.pokemon_types, vec![into_badge(&electric())]);
}

#[test]
fn pokemon_view_assembles_badges() {
    let matchup = build_matchup_details(&vec![electric()]);
    assert_eq!(matchup.weak_against, vec!["dragon".to_string(), "grass".to_string(), "ground".to_string()]);
    let view = pokemon_view(pikachu_info(), matchup, &vec![electric()], &vec![], &vec![electric()]);
    assert_eq!(view.id, 25);
    assert_eq!(view.name, "pikachu");
    assert_eq!(view.pokemon_types.len(), 1);
    assert!(view.strong_against.is_empty());
    assert_eq!(view.weak_against[0].name, "electric");
    assert_eq!(view.matchup_details.strong_against, vec!["flying".to_string(), "steel".to_string(), "water".to_string()]);
}

#[test]
fn team_details_key_refuses_unicode_blank() {
    assert_eq!(team_details_lookup_key("\u{3000}\u{A0}\t").unwrap_err(), "Please enter a Pokemon name.");
    assert_eq!(team_details_lookup_key(" Flabébé ").unwrap(), "flabébé");
}
