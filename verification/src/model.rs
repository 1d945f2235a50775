//! The records that the lookups, the matchup and the team editor pass around.

use vstd::prelude::*;

verus! {

/// A type as a badge: its name, its display name and its icon.
#[derive(Debug, PartialEq, Eq, Clone)]
pub struct TypeBadge {
    pub name: String,
    pub display_name: String,
    pub image: String,
}

/// The types that a type deals double, half and no damage to (attack), and
/// takes double, half and no damage from (defense).
#[derive(Debug, PartialEq, Eq, Clone)]
pub struct DamageRelations {
    pub attack_double: Vec<String>,
    pub attack_half: Vec<String>,
    pub attack_none: Vec<String>,
    pub defense_double: Vec<String>,
    pub defense_half: Vec<String>,
    pub defense_none: Vec<String>,
}

/// A type as the lookups cache it.
#[derive(Debug, PartialEq, Eq, Clone)]
pub struct TypeInfo {
    pub name: String,
    pub display_name: String,
    pub image: String,
    pub damage_relations: DamageRelations,
}

/// A damage multiplier of the matchup: zero, or two raised to `exponent`.
/// Every multiplier the matchup forms is a product of 2, 1/2 and 0, so this
/// holds it exactly.
#[derive(Debug, PartialEq, Eq, Clone, Copy)]
pub struct Factor {
    pub zero: bool,
    pub exponent: i64,
}

/// How one type fares against a Pokemon: the multiplier of the Pokemon's
/// attacks on it and of its attacks on the Pokemon.
#[derive(Debug, PartialEq, Eq)]
pub struct MatchupEntry {
    pub name: String,
    pub attack: Factor,
    pub defense: Factor,
}

/// A matchup entry as a model.
pub struct MatchupEntryView {
    pub name: Seq<char>,
    pub attack: Factor,
    pub defense: Factor,
}

impl View for MatchupEntry {
    type V = MatchupEntryView;

    open spec fn view(&self) -> MatchupEntryView {
        MatchupEntryView { name: self.name@, attack: self.attack, defense: self.defense }
    }
}

impl Clone for MatchupEntry {
    fn clone(&self) -> (r: Self)
        ensures
            r@ == self@,
    {
        MatchupEntry { name: self.name.clone(), attack: self.attack, defense: self.defense }
    }
}

/// The non-neutral matchups of a Pokemon, ordered by type name, and the
/// names of the types it is strong and weak against.
#[derive(Debug, PartialEq, Eq)]
pub struct PokemonMatchupDetails {
    pub entries: Vec<MatchupEntry>,
    pub strong_against: Vec<String>,
    pub weak_against: Vec<String>,
}

/// A Pokemon's matchup as a model.
pub struct PokemonMatchupDetailsView {
    pub entries: Seq<MatchupEntryView>,
    pub strong_against: Seq<Seq<char>>,
    pub weak_against: Seq<Seq<char>>,
}

impl View for PokemonMatchupDetails {
    type V = PokemonMatchupDetailsView;

    open spec fn view(&self) -> PokemonMatchupDetailsView {
        PokemonMatchupDetailsView {
            entries: self.entries@.map_values(|e: MatchupEntry| e@),
            strong_against: string_views(self.strong_against@),
            weak_against: string_views(self.weak_against@),
        }
    }
}

/// The characters of each of `list`, in order.
pub open spec fn string_views(list: Seq<String>) -> Seq<Seq<char>> {
    list.map_values(|s: String| s@)
}

/// A copy of the names `list`.
pub fn copy_strings(list: &Vec<String>) -> (r: Vec<String>)
    ensures
        string_views(r@) == string_views(list@),
{
    let mut r: Vec<String> = Vec::new();
    let n = list.len();
    let mut i: usize = 0;
    while i < n
        invariant
            n == list@.len(),
            i <= n,
            r@.len() == i,
            forall|j: int| 0 <= j < i ==> (#[trigger] r@[j])@ == list@[j]@,
        decreases n - i,
    {
        r.push(list[i].clone());
        i += 1;
    }
    assert(string_views(r@) =~= string_views(list@));
    r
}

/// A copy of the matchup entries `list`.
pub fn copy_entries(list: &Vec<MatchupEntry>) -> (r: Vec<MatchupEntry>)
    ensures
        r@.map_values(|e: MatchupEntry| e@) == list@.map_values(|e: MatchupEntry| e@),
{
    let mut r: Vec<MatchupEntry> = Vec::new();
    let n = list.len();
    let mut i: usize = 0;
    while i < n
        invariant
            n == list@.len(),
            i <= n,
            r@.len() == i,
            forall|j: int| 0 <= j < i ==> (#[trigger] r@[j])@ == list@[j]@,
        decreases n - i,
    {
        r.push(list[i].clone());
        i += 1;
    }
    assert(r@.map_values(|e: MatchupEntry| e@) =~= list@.map_values(|e: MatchupEntry| e@));
    r
}

impl Clone for PokemonMatchupDetails {
    fn clone(&self) -> (r: Self)
        ensures
            r@ == self@,
    {
        PokemonMatchupDetails {
            entries: copy_entries(&self.entries),
            strong_against: copy_strings(&self.strong_against),
            weak_against: copy_strings(&self.weak_against),
        }
    }
}

/// A Pokemon as the lookups cache it. `matchup_details` is filled in once the
/// matchup has been computed.
#[derive(Debug, PartialEq, Eq, Clone)]
pub struct PokemonInfo {
    pub id: u32,
    pub name: String,
    pub display_name: String,
    pub image: String,
    pub types: Vec<String>,
    pub matchup_details: Option<PokemonMatchupDetails>,
}

/// A Pokemon with its matchup, as the lookup page shows it.
#[derive(Debug, PartialEq, Eq)]
pub struct PokemonView {
    pub id: u32,
    pub name: String,
    pub display_name: String,
    pub image: String,
    pub pokemon_types: Vec<TypeBadge>,
    pub strong_against: Vec<TypeBadge>,
    pub weak_against: Vec<TypeBadge>,
    pub matchup_details: PokemonMatchupDetails,
}

/// A Pokemon as the team editor shows it.
#[derive(Debug, PartialEq, Eq)]
pub struct TeamPokemonDetails {
    pub name: String,
    pub display_name: String,
    pub image: String,
    pub pokemon_types: Vec<TypeBadge>,
}

/// A move: its number, its name and the name of its type.
#[derive(Debug, PartialEq, Eq)]
pub struct MoveInfo {
    pub id: u32,
    pub name: String,
    pub move_type: String,
}

/// A move as a model.
pub struct MoveInfoView {
    pub id: u32,
    pub name: Seq<char>,
    pub move_type: Seq<char>,
}

impl View for MoveInfo {
    type V = MoveInfoView;

    open spec fn view(&self) -> MoveInfoView {
        MoveInfoView { id: self.id, name: self.name@, move_type: self.move_type@ }
    }
}

impl Clone for MoveInfo {
    fn clone(&self) -> (r: Self)
        ensures
            r@ == self@,
    {
        MoveInfo { id: self.id, name: self.name.clone(), move_type: self.move_type.clone() }
    }
}

/// The model of a move slot.
pub open spec fn move_slot_view(m: Option<MoveInfo>) -> Option<MoveInfoView> {
    match m {
        Some(info) => Some(info@),
        None => None,
    }
}

/// A saved team member: its id, species, nickname, level and four move slots.
#[derive(Debug, PartialEq, Eq)]
pub struct TeamEntry {
    pub id: u64,
    pub pokemon_name: String,
    pub nickname: String,
    pub level: u8,
    pub moves: Vec<Option<MoveInfo>>,
}

/// A saved team member as a model.
pub struct TeamEntryView {
    pub id: u64,
    pub pokemon_name: Seq<char>,
    pub nickname: Seq<char>,
    pub level: u8,
    pub moves: Seq<Option<MoveInfoView>>,
}

impl View for TeamEntry {
    type V = TeamEntryView;

    open spec fn view(&self) -> TeamEntryView {
        TeamEntryView {
            id: self.id,
            pokemon_name: self.pokemon_name@,
            nickname: self.nickname@,
            level: self.level,
            moves: move_slot_views(self.moves@),
        }
    }
}

/// The models of the move slots `moves`.
pub open spec fn move_slot_views(moves: Seq<Option<MoveInfo>>) -> Seq<Option<MoveInfoView>> {
    moves.map_values(|m: Option<MoveInfo>| move_slot_view(m))
}

/// A copy of the move slots `moves`.
pub fn copy_move_slots(moves: &Vec<Option<MoveInfo>>) -> (r: Vec<Option<MoveInfo>>)
    ensures
        move_slot_views(r@) == move_slot_views(moves@),
{
    let mut r: Vec<Option<MoveInfo>> = Vec::new();
    let n = moves.len();
    let mut i: usize = 0;
    while i < n
        invariant
            n == moves@.len(),
            i <= n,
            r@.len() == i,
            forall|j: int| 0 <= j < i ==> move_slot_view(#[trigger] r@[j]) == move_slot_view(moves@[j]),
        decreases n - i,
    {
        let slot = match &moves[i] {
            Some(info) => Some(info.clone()),
            None => None,
        };
        assert(move_slot_view(slot) == move_slot_view(moves@[i as int]));
        r.push(slot);
        i += 1;
    }
    assert(move_slot_views(r@) =~= move_slot_views(moves@));
    r
}

impl Clone for TeamEntry {
    fn clone(&self) -> (r: Self)
        ensures
            r@ == self@,
    {
        TeamEntry {
            id: self.id,
            pokemon_name: self.pokemon_name.clone(),
            nickname: self.nickname.clone(),
            level: self.level,
            moves: copy_move_slots(&self.moves),
        }
    }
}

/// The saved team: the id the next new member gets, all saved members, and
/// the ids of the members on the current team.
#[derive(Debug, PartialEq, Eq)]
pub struct TeamData {
    pub next_entry_id: u64,
    pub entries: Vec<TeamEntry>,
    pub current_team: Vec<u64>,
}

/// The saved team as a model.
pub struct TeamDataView {
    pub next_entry_id: u64,
    pub entries: Seq<TeamEntryView>,
    pub current_team: Seq<u64>,
}

impl View for TeamData {
    type V = TeamDataView;

    open spec fn view(&self) -> TeamDataView {
        TeamDataView {
            next_entry_id: self.next_entry_id,
            entries: self.entries@.map_values(|e: TeamEntry| e@),
            current_team: self.current_team@,
        }
    }
}

/// The saved team as the team page shows it.
#[derive(Debug, PartialEq, Eq)]
pub struct TeamStateView {
    pub entries: Vec<TeamEntry>,
    pub current_team_ids: Vec<u64>,
}

/// A team member as the editor submits it: `id` is set when an existing member is edited.
#[derive(Debug, PartialEq, Eq)]
pub struct TeamEntryInput {
    pub id: Option<u64>,
    pub pokemon_name: String,
    pub nickname: String,
    pub level: u8,
    pub moves: Vec<String>,
}

/// A submitted team member as a model.
pub struct TeamEntryInputView {
    pub id: Option<u64>,
    pub pokemon_name: Seq<char>,
    pub nickname: Seq<char>,
    pub level: u8,
    pub moves: Seq<Seq<char>>,
}

impl View for TeamEntryInput {
    type V = TeamEntryInputView;

    open spec fn view(&self) -> TeamEntryInputView {
        TeamEntryInputView {
            id: self.id,
            pokemon_name: self.pokemon_name@,
            nickname: self.nickname@,
            level: self.level,
            moves: self.moves@.map_values(|s: String| s@),
        }
    }
}

} // verus!
