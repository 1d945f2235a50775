//! What the lookup commands decide: which key a typed name is looked up
//! under, what an unknown name is answered, and how the results are shown.

use vstd::prelude::*;

use crate::model::{PokemonInfo, PokemonMatchupDetails, PokemonView, TeamPokemonDetails, TypeBadge, TypeInfo};
use crate::text::{is_blank, is_white_space, lowercase_of, lowercased, normalize_name, normalized, str_to_lowercase, trim, trimmed};

verus! {

/// Whether `b` is the badge of the type `t`.
pub open spec fn is_badge_of(b: TypeBadge, t: TypeInfo) -> bool {
    &&& b.name@ == t.name@
    &&& b.display_name@ == t.display_name@
    &&& b.image@ == t.image@
}

/// Whether `badges` are the badges of the types `infos`, in order.
pub open spec fn are_badges_of(badges: Seq<TypeBadge>, infos: Seq<TypeInfo>) -> bool {
    &&& badges.len() == infos.len()
    &&& forall|i: int| 0 <= i < badges.len() ==> is_badge_of(#[trigger] badges[i], infos[i])
}

/// Badges of type records hold, place by place, the name, display name and
/// image of the record at the same place, and there are as many of them.
pub proof fn lemma_badges_in_order(badges: Seq<TypeBadge>, infos: Seq<TypeInfo>)
    requires
        are_badges_of(badges, infos),
    ensures
        badges.len() == infos.len(),
        forall|k: int|
            0 <= k < badges.len() ==> (#[trigger] badges[k]).name@ == infos[k].name@
                && badges[k].display_name@ == infos[k].display_name@ && badges[k].image@ == infos[k].image@,
{
}

/// The badge of a type.
pub fn into_badge(type_info: &TypeInfo) -> (r: TypeBadge)
    ensures
        is_badge_of(r, *type_info),
        r.name@ == type_info.name@,
        r.display_name@ == type_info.display_name@,
        r.image@ == type_info.image@,
{
    TypeBadge {
        name: type_info.name.clone(),
        display_name: type_info.display_name.clone(),
        image: type_info.image.clone(),
    }
}

/// The badges of the types `infos`, in order.
pub fn badges_of(infos: &Vec<TypeInfo>) -> (r: Vec<TypeBadge>)
    ensures
        are_badges_of(r@, infos@),
        r@.len() == infos@.len(),
        forall|k: int|
            0 <= k < r@.len() ==> (#[trigger] r@[k]).name@ == infos@[k].name@
                && r@[k].display_name@ == infos@[k].display_name@ && r@[k].image@ == infos@[k].image@,
{
    let mut r: Vec<TypeBadge> = Vec::new();
    let n = infos.len();
    let mut i: usize = 0;
    while i < n
        invariant
            n == infos@.len(),
            i <= n,
            r@.len() == i,
            forall|j: int| 0 <= j < i ==> is_badge_of(#[trigger] r@[j], infos@[j]),
        decreases n - i,
    {
        r.push(into_badge(&infos[i]));
        i += 1;
    }
    r
}

/// The key under which the matchup page looks a Pokemon up: the typed name or
/// number, trimmed and lowercased; an empty key is refused.
pub fn matchup_lookup_key(name: &str) -> (r: Result<String, String>)
    ensures
        match r {
            Ok(key) => key@ == lowercased(trimmed(name@)) && key@.len() > 0,
            Err(e) => lowercased(trimmed(name@)).len() == 0 && e@
                == "Please enter a Pokemon name or ID."@,
        },
        r matches Ok(key) ==> key@ == lowercase_of(trimmed(name@)),
        r is Err <==> is_blank(name@),
{
    let trimmed_name = trim(name);
    proof {
        let (i, j) = choose|i: int, j: int|
            {
                &&& 0 <= i <= j <= name@.len()
                &&& trimmed_name@ == name@.subrange(i, j)
                &&& forall|k: int| 0 <= k < i ==> is_white_space(#[trigger] name@[k])
                &&& forall|k: int| j <= k < name@.len() ==> is_white_space(#[trigger] name@[k])
                &&& i < j ==> !is_white_space(name@[i]) && !is_white_space(name@[j - 1])
            };
        if i == j {
            assert forall|k: int| 0 <= k < name@.len() implies is_white_space(#[trigger] name@[k]) by {
                if k >= i {
                    assert(j <= k);
                }
            }
        } else {
            assert(!is_white_space(name@[i]));
        }
    }
    let key = str_to_lowercase(trimmed_name.as_str());
    if key.as_str().unicode_len() == 0 {
        Err(String::from_str("Please enter a Pokemon name or ID."))
    } else {
        Ok(key)
    }
}

/// The key under which the team editor looks a Pokemon up: the typed name
/// normalized; an empty key is refused.
pub fn team_details_lookup_key(name: &str) -> (r: Result<String, String>)
    ensures
        match r {
            Ok(key) => key@ == normalized(name@) && key@.len() > 0 && !is_blank(name@),
            Err(e) => normalized(name@).len() == 0 && is_blank(name@) && e@
                == "Please enter a Pokemon name."@,
        },
{
    let key = normalize_name(name);
    if key.as_str().unicode_len() == 0 {
        Err(String::from_str("Please enter a Pokemon name."))
    } else {
        Ok(key)
    }
}

/// The answer when the typed Pokemon name `name` was not found: it quotes the
/// name trimmed and gives the lookup's error.
pub fn pokemon_not_found_message(name: &str, error: &str) -> (r: String)
    ensures
        r@ == "Pokemon '"@ + trimmed(name@) + "' not found: "@ + error@,
{
    let mut r = String::from_str("Pokemon '");
    let t = trim(name);
    r.append(t.as_str());
    r.append("' not found: ");
    r.append(error);
    r
}

/// The answer when the typed move name `move_name` was not found: it quotes the name trimmed.
pub fn move_not_found_message(move_name: &str) -> (r: String)
    ensures
        r@ == "Move '"@ + trimmed(move_name@) + "' not found"@,
{
    let mut r = String::from_str("Move '");
    let t = trim(move_name);
    r.append(t.as_str());
    r.append("' not found");
    r
}

/// A Pokemon as the team editor shows it: its names and image, and the badges of
/// its types, `type_infos` being the records of `pokemon.types` in order.
pub fn team_pokemon_details(pokemon: PokemonInfo, type_infos: &Vec<TypeInfo>) -> (r: TeamPokemonDetails)
    ensures
        r.name == pokemon.name,
        r.display_name == pokemon.display_name,
        r.image == pokemon.image,
        are_badges_of(r.pokemon_types@, type_infos@),
        r.pokemon_types@.len() == type_infos@.len(),
        forall|k: int|
            0 <= k < r.pokemon_types@.len() ==> (#[trigger] r.pokemon_types@[k]).name@ == type_infos@[k].name@
                && r.pokemon_types@[k].display_name@ == type_infos@[k].display_name@ && r.pokemon_types@[k].image@ == type_infos@[k].image@,
{
    TeamPokemonDetails {
        name: pokemon.name,
        display_name: pokemon.display_name,
        image: pokemon.image,
        pokemon_types: badges_of(type_infos),
    }
}

/// A Pokemon with its matchup as the lookup page shows it: `type_infos`,
/// `strong_infos` and `weak_infos` are the records of the Pokemon's types and of
/// the types it is strong and weak against, in order.
pub fn pokemon_view(
    pokemon: PokemonInfo,
    matchup_details: PokemonMatchupDetails,
    type_infos: &Vec<TypeInfo>,
    strong_infos: &Vec<TypeInfo>,
    weak_infos: &Vec<TypeInfo>,
) -> (r: PokemonView)
    ensures
        r.id == pokemon.id,
        r.name == pokemon.name,
        r.display_name == pokemon.display_name,
        r.image == pokemon.image,
        are_badges_of(r.pokemon_types@, type_infos@),
        are_badges_of(r.strong_against@, strong_infos@),
        are_badges_of(r.weak_against@, weak_infos@),
        r.matchup_details == matchup_details,
        r.pokemon_types@.len() == type_infos@.len(),
        forall|k: int|
            0 <= k < r.pokemon_types@.len() ==> (#[trigger] r.pokemon_types@[k]).name@ == type_infos@[k].name@
                && r.pokemon_types@[k].display_name@ == type_infos@[k].display_name@ && r.pokemon_types@[k].image@ == type_infos@[k].image@,
        r.strong_against@.len() == strong_infos@.len(),
        forall|k: int|
            0 <= k < r.strong_against@.len() ==> (#[trigger] r.strong_against@[k]).name@ == strong_infos@[k].name@
                && r.strong_against@[k].display_name@ == strong_infos@[k].display_name@ && r.strong_against@[k].image@ == strong_infos@[k].image@,
        r.weak_against@.len() == weak_infos@.len(),
        forall|k: int|
            0 <= k < r.weak_against@.len() ==> (#[trigger] r.weak_against@[k]).name@ == weak_infos@[k].name@
                && r.weak_against@[k].display_name@ == weak_infos@[k].display_name@ && r.weak_against@[k].image@ == weak_infos@[k].image@,
{
    PokemonView {
        id: pokemon.id,
        name: pokemon.name,
        display_name: pokemon.display_name,
        image: pokemon.image,
        pokemon_types: badges_of(type_infos),
        strong_against: badges_of(strong_infos),
        weak_against: badges_of(weak_infos),
        matchup_details,
    }
}

} // verus!
