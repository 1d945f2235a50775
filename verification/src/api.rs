//! The replies of PokeAPI, and how lookups turn them into cached records.

use vstd::prelude::*;

use crate::model::{string_views, DamageRelations, MoveInfo, PokemonInfo, TypeInfo};
use crate::text::{capitalize, capitalized};

verus! {

/// Where PokeAPI answers.
pub const BASE_URL: &'static str = "https://pokeapi.co/api/v2";

/// A named reference in a reply.
#[derive(Debug, PartialEq, Eq)]
pub struct NamedApiResource {
    pub name: String,
}

/// The official artwork of a Pokemon.
#[derive(Debug, PartialEq, Eq)]
pub struct OfficialArtwork {
    pub front_default: Option<String>,
}

/// The other sprites of a Pokemon.
#[derive(Debug, PartialEq, Eq)]
pub struct PokemonOtherSprites {
    pub official_artwork: OfficialArtwork,
}

/// The sprites of a Pokemon.
#[derive(Debug, PartialEq, Eq)]
pub struct PokemonSprites {
    pub other: PokemonOtherSprites,
}

/// One type slot of a Pokemon.
#[derive(Debug, PartialEq, Eq)]
pub struct PokemonTypeSlot {
    pub type_info: NamedApiResource,
}

/// The reply for a Pokemon.
#[derive(Debug, PartialEq, Eq)]
pub struct PokemonApiResponse {
    pub id: u32,
    pub name: String,
    pub sprites: PokemonSprites,
    pub types: Vec<PokemonTypeSlot>,
}

/// The reply for a move.
#[derive(Debug, PartialEq, Eq)]
pub struct MoveApiResponse {
    pub id: u32,
    pub name: String,
    pub type_info: NamedApiResource,
}

/// The name icon of a type in the Scarlet and Violet games.
#[derive(Debug, PartialEq, Eq)]
pub struct ScarletVioletSprites {
    pub name_icon: Option<String>,
}

/// The generation IX sprites of a type.
#[derive(Debug, PartialEq, Eq)]
pub struct GenerationIxSprites {
    pub scarlet_violet: ScarletVioletSprites,
}

/// The sprites of a type.
#[derive(Debug, PartialEq, Eq)]
pub struct TypeSprites {
    pub generation_ix: GenerationIxSprites,
}

/// The damage relations of a type as PokeAPI lists them.
#[derive(Debug, PartialEq, Eq)]
pub struct TypeDamageRelationsApi {
    pub double_damage_to: Vec<NamedApiResource>,
    pub half_damage_to: Vec<NamedApiResource>,
    pub no_damage_to: Vec<NamedApiResource>,
    pub double_damage_from: Vec<NamedApiResource>,
    pub half_damage_from: Vec<NamedApiResource>,
    pub no_damage_from: Vec<NamedApiResource>,
}

/// The reply for a type.
#[derive(Debug, PartialEq, Eq)]
pub struct TypeApiResponse {
    pub name: String,
    pub sprites: TypeSprites,
    pub damage_relations: TypeDamageRelationsApi,
}

/// The names of the references `list`.
pub open spec fn resource_names(list: Seq<NamedApiResource>) -> Seq<Seq<char>> {
    list.map_values(|r: NamedApiResource| r.name@)
}

/// The text of an optional string, empty when there is none.
pub open spec fn text_or_empty(s: Option<String>) -> Seq<char> {
    match s {
        Some(t) => t@,
        None => seq![],
    }
}

/// The name lists of the records keep the replies' lists place by place: the
/// names of references hold, in order, each reference's name, and an optional
/// text is its text when present and empty otherwise.
pub proof fn lemma_names_in_place(list: Seq<NamedApiResource>, strings: Seq<String>, s: Option<String>)
    ensures
        resource_names(list).len() == list.len(),
        forall|i: int| 0 <= i < list.len() ==> #[trigger] resource_names(list)[i] == list[i].name@,
        string_views(strings).len() == strings.len(),
        forall|i: int| 0 <= i < strings.len() ==> #[trigger] string_views(strings)[i] == strings[i]@,
        s matches Some(t) ==> text_or_empty(s) == t@,
        s is None ==> text_or_empty(s).len() == 0,
{
}

/// The names of the references `list`.
pub fn names_of_resources(list: &Vec<NamedApiResource>) -> (r: Vec<String>)
    ensures
        string_views(r@) == resource_names(list@),
{
    let mut r: Vec<String> = Vec::new();
    let n = list.len();
    let mut i: usize = 0;
    while i < n
        invariant
            n == list@.len(),
            i <= n,
            r@.len() == i,
            forall|j: int| 0 <= j < i ==> (#[trigger] r@[j])@ == list@[j].name@,
        decreases n - i,
    {
        r.push(list[i].name.clone());
        i += 1;
    }
    assert(string_views(r@) =~= resource_names(list@));
    r
}

fn text_or_empty_of(s: &Option<String>) -> (r: String)
    ensures
        r@ == text_or_empty(*s),
{
    match s {
        Some(t) => t.clone(),
        None => String::new(),
    }
}

/// The record cached for a Pokemon, from its reply: the display name is the name
/// capitalized, the image the official artwork (empty when there is none), and the
/// types the names of its type slots, in order; the matchup is not yet computed.
pub fn pokemon_info_from_api(pokemon: &PokemonApiResponse) -> (r: PokemonInfo)
    ensures
        r.id == pokemon.id,
        r.name@ == pokemon.name@,
        r.display_name@ == capitalized(pokemon.name@),
        r.image@ == text_or_empty(pokemon.sprites.other.official_artwork.front_default),
        string_views(r.types@) == pokemon.types@.map_values(|s: PokemonTypeSlot| s.type_info.name@),
        r.matchup_details is None,
{
    let mut types: Vec<String> = Vec::new();
    let n = pokemon.types.len();
    let mut i: usize = 0;
    while i < n
        invariant
            n == pokemon.types@.len(),
            i <= n,
            types@.len() == i,
            forall|j: int| 0 <= j < i ==> (#[trigger] types@[j])@ == pokemon.types@[j].type_info.name@,
        decreases n - i,
    {
        types.push(pokemon.types[i].type_info.name.clone());
        i += 1;
    }
    assert(string_views(types@) =~= pokemon.types@.map_values(
        |s: PokemonTypeSlot| s.type_info.name@,
    ));
    PokemonInfo {
        id: pokemon.id,
        name: pokemon.name.clone(),
        display_name: capitalize(pokemon.name.as_str()),
        image: text_or_empty_of(&pokemon.sprites.other.official_artwork.front_default),
        types,
        matchup_details: None,
    }
}

/// The record cached for a type, from its reply: the display name is the name
/// capitalized, the image the Scarlet and Violet name icon (empty when there is
/// none), and each list of damage relations the names of the listed types.
pub fn type_info_from_api(type_data: &TypeApiResponse) -> (r: TypeInfo)
    ensures
        r.name@ == type_data.name@,
        r.display_name@ == capitalized(type_data.name@),
        r.image@ == text_or_empty(type_data.sprites.generation_ix.scarlet_violet.name_icon),
        string_views(r.damage_relations.attack_double@) == resource_names(
            type_data.damage_relations.double_damage_to@,
        ),
        string_views(r.damage_relations.attack_half@) == resource_names(
            type_data.damage_relations.half_damage_to@,
        ),
        string_views(r.damage_relations.attack_none@) == resource_names(
            type_data.damage_relations.no_damage_to@,
        ),
        string_views(r.damage_relations.defense_double@) == resource_names(
            type_data.damage_relations.double_damage_from@,
        ),
        string_views(r.damage_relations.defense_half@) == resource_names(
            type_data.damage_relations.half_damage_from@,
        ),
        string_views(r.damage_relations.defense_none@) == resource_names(
            type_data.damage_relations.no_damage_from@,
        ),
{
    let rel = &type_data.damage_relations;
    TypeInfo {
        name: type_data.name.clone(),
        display_name: capitalize(type_data.name.as_str()),
        image: text_or_empty_of(&type_data.sprites.generation_ix.scarlet_violet.name_icon),
        damage_relations: DamageRelations {
            attack_double: names_of_resources(&rel.double_damage_to),
            attack_half: names_of_resources(&rel.half_damage_to),
            attack_none: names_of_resources(&rel.no_damage_to),
            defense_double: names_of_resources(&rel.double_damage_from),
            defense_half: names_of_resources(&rel.half_damage_from),
            defense_none: names_of_resources(&rel.no_damage_from),
        },
    }
}

/// The record cached for a move, from its reply.
pub fn move_info_from_api(move_data: &MoveApiResponse) -> (r: MoveInfo)
    ensures
        r.id == move_data.id,
        r.name@ == move_data.name@,
        r.move_type@ == move_data.type_info.name@,
{
    MoveInfo {
        id: move_data.id,
        name: move_data.name.clone(),
        move_type: move_data.type_info.name.clone(),
    }
}

/// The address of the resource `path` of PokeAPI.
pub fn api_url(path: &str) -> (r: String)
    ensures
        r@ == BASE_URL@ + "/"@ + path@,
{
    let mut r = String::from_str(BASE_URL);
    r.append("/");
    r.append(path);
    r
}

/// The resource path of the Pokemon `name`.
pub fn pokemon_path(name: &str) -> (r: String)
    ensures
        r@ == "pokemon/"@ + name@,
{
    let mut r = String::from_str("pokemon/");
    r.append(name);
    r
}

/// The resource path of the type `name`.
pub fn type_path(name: &str) -> (r: String)
    ensures
        r@ == "type/"@ + name@,
{
    let mut r = String::from_str("type/");
    r.append(name);
    r
}

/// The resource path of the move `name`.
pub fn move_path(name: &str) -> (r: String)
    ensures
        r@ == "move/"@ + name@,
{
    let mut r = String::from_str("move/");
    r.append(name);
    r
}

/// Whether an HTTP status reports success (the 2xx range).
pub fn is_success_status(code: u16) -> (r: bool)
    ensures
        r == (200 <= code && code <= 299),
{
    200 <= code && code <= 299
}

} // verus!
