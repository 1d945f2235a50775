//! Validating a submitted team member: the input rules, then one lookup for the
//! Pokemon and one for each filled move slot, each answered by the caller.

use vstd::prelude::*;

use crate::lookup::{move_not_found_message, pokemon_not_found_message};
use crate::model::{
    copy_move_slots, move_slot_views, MoveInfo, MoveInfoView, TeamEntry, TeamEntryInput,
    TeamEntryInputView, TeamEntryView,
};
use crate::text::{is_blank, normalize_name, normalized, trim, trimmed};

verus! {

/// How many move slots a member has.
pub const MOVE_SLOTS: usize = 4;

/// The lowest level a member may have.
pub const MIN_LEVEL: u8 = 1;

/// The highest level a member may have.
pub const MAX_LEVEL: u8 = 100;

/// Why a submitted member is refused before any lookup, if it is: the level
/// must be 1 to 100, there must be four move slots, and the Pokemon name must
/// not be blank.
pub open spec fn input_rejection(input: TeamEntryInputView) -> Option<Seq<char>> {
    if !(MIN_LEVEL <= input.level && input.level <= MAX_LEVEL) {
        Some("Level must be between 1 and 100."@)
    } else if input.moves.len() != MOVE_SLOTS {
        Some("Exactly 4 move slots are required."@)
    } else if is_blank(input.pokemon_name) {
        Some("Please enter a Pokemon name."@)
    } else {
        None
    }
}

/// The input rules: a member passes them exactly when its level is 1 to 100,
/// it has four move slots and its Pokemon name is not blank; a level outside 1
/// to 100 is refused with the level message.
pub proof fn lemma_input_rules(input: TeamEntryInputView)
    ensures
        input_rejection(input) is None <==> (1 <= input.level <= 100 && input.moves.len() == 4
            && !is_blank(input.pokemon_name)),
        !(1 <= input.level <= 100) ==> input_rejection(input) == Some(
            "Level must be between 1 and 100."@,
        ),
{
}

/// The first move slot at or after `from` that names a move (blank slots are
/// left empty without a lookup), or the number of slots when none does.
pub open spec fn next_move_lookup(moves: Seq<Seq<char>>, from: int) -> int
    decreases moves.len() - from,
{
    if from < 0 || from >= moves.len() || !is_blank(moves[from]) {
        from
    } else {
        next_move_lookup(moves, from + 1)
    }
}

/// Where the next lookup lands: no earlier than `from`, within the slots, at a
/// slot that names a move, and it stays there.
pub proof fn lemma_next_move_lookup(moves: Seq<Seq<char>>, from: int)
    requires
        0 <= from <= moves.len(),
    ensures
        from <= next_move_lookup(moves, from) <= moves.len(),
        next_move_lookup(moves, from) < moves.len() ==> !is_blank(
            moves[next_move_lookup(moves, from)],
        ),
        next_move_lookup(moves, next_move_lookup(moves, from)) == next_move_lookup(moves, from),
        forall|i: int| from <= i < next_move_lookup(moves, from) ==> is_blank(#[trigger] moves[i]),
    decreases moves.len() - from,
{
    if from < moves.len() && is_blank(moves[from]) {
        lemma_next_move_lookup(moves, from + 1);
    }
}

/// `n` empty move slots.
pub open spec fn empty_slots(n: int) -> Seq<Option<MoveInfoView>> {
    Seq::new(n as nat, |i: int| None::<MoveInfoView>)
}

/// A validation in progress, as a model: the submitted member, the id it keeps when
/// edited, the species name once found, and the move slots filled so far.
pub struct TeamEntryValidationView {
    pub input: TeamEntryInputView,
    pub existing_id: Option<u64>,
    pub pokemon_name: Option<Seq<char>>,
    pub moves: Seq<Option<MoveInfoView>>,
}

/// Whether the validation waits for the Pokemon lookup.
pub open spec fn awaiting_pokemon(v: TeamEntryValidationView) -> bool {
    v.pokemon_name is None
}

/// Whether the validation waits for the lookup of the move in slot `v.moves.len()`.
pub open spec fn awaiting_move(v: TeamEntryValidationView) -> bool {
    v.pokemon_name is Some && v.moves.len() < v.input.moves.len()
}

/// The member that a finished validation yields: the id kept (0 for a new member,
/// which gets its id when saved), the species found, the nickname trimmed, the
/// level given, and the move slots filled.
pub open spec fn finished_entry(v: TeamEntryValidationView) -> TeamEntryView {
    TeamEntryView {
        id: match v.existing_id {
            Some(id) => id,
            None => 0,
        },
        pokemon_name: v.pokemon_name->0,
        nickname: trimmed(v.input.nickname),
        level: v.input.level,
        moves: v.moves,
    }
}

/// Whether the member `e` keeps to the submitted `input`: four move slots, a
/// level within range, the level and trimmed nickname submitted, and a slot
/// empty exactly when its submitted text names no move.
pub open spec fn entry_follows_input(e: TeamEntryView, input: TeamEntryInputView) -> bool {
    &&& e.moves.len() == MOVE_SLOTS
    &&& MIN_LEVEL <= e.level && e.level <= MAX_LEVEL
    &&& e.level == input.level
    &&& e.nickname == trimmed(input.nickname)
    &&& forall|i: int|
        0 <= i < MOVE_SLOTS ==> ((#[trigger] e.moves[i]) is None <==> is_blank(input.moves[i]))
}

/// What the caller does next.
pub enum ValidationStep {
    /// Look up the move with this key and hand back the answer.
    FetchMove(String),
    /// The validation is over: this is the member.
    Done(TeamEntry),
    /// The validation is over: the member is refused with this message.
    Fail(String),
}

/// Whether, from `before`, the validation moved on to the next slot that names a
/// move, leaving the blank slots before it empty, and asked for that move, or,
/// when none is left, finished with the member.
pub open spec fn moved_on(before: TeamEntryValidationView, after: TeamEntryValidationView, step: ValidationStep) -> bool {
    let j = next_move_lookup(before.input.moves, before.moves.len() as int);
    &&& after == TeamEntryValidationView {
        moves: before.moves + empty_slots(j - before.moves.len()),
        ..before
    }
    &&& match step {
        ValidationStep::FetchMove(key) => j < before.input.moves.len() && key@ == normalized(
            before.input.moves[j],
        ),
        ValidationStep::Done(entry) => j >= before.input.moves.len() && entry@ == finished_entry(after),
        ValidationStep::Fail(_) => false,
    }
}

/// A member that keeps to the submitted input has four move slots, the level
/// submitted, which is 1 to 100, the nickname submitted without its outer
/// whitespace, and an empty slot exactly where the submitted move is blank.
pub proof fn lemma_entry_follows_input_fields(e: TeamEntryView, input: TeamEntryInputView)
    requires
        entry_follows_input(e, input),
    ensures
        e.moves.len() == 4,
        1 <= e.level <= 100,
        e.level == input.level,
        e.nickname == trimmed(input.nickname),
        forall|i: int| 0 <= i < 4 ==> ((#[trigger] e.moves[i]) is None <==> is_blank(input.moves[i])),
{
}

/// The member a finished validation yields keeps the id being edited (0 for a
/// new member), the species found, the nickname submitted without its outer
/// whitespace, the level submitted and the slots filled.
pub proof fn lemma_finished_entry_fields(v: TeamEntryValidationView, name: Seq<char>)
    requires
        v.pokemon_name == Some(name),
    ensures
        finished_entry(v).id == (if v.existing_id is Some {
            v.existing_id->0
        } else {
            0
        }),
        finished_entry(v).pokemon_name == name,
        finished_entry(v).nickname == trimmed(v.input.nickname),
        finished_entry(v).level == v.input.level,
        finished_entry(v).moves == v.moves,
{
}

/// A step of the validation keeps the input, the id and the species, keeps the
/// slots already filled, leaves empty exactly the blank slots it skips, and then
/// either asks for the move of the first slot that is not blank, under that
/// slot's key, or, when no such slot is left, finishes with every slot filled.
pub proof fn lemma_moved_on_fields(
    before: TeamEntryValidationView,
    after: TeamEntryValidationView,
    step: ValidationStep,
)
    requires
        before.moves.len() <= before.input.moves.len(),
        moved_on(before, after, step),
    ensures
        after.input == before.input,
        after.existing_id == before.existing_id,
        after.pokemon_name == before.pokemon_name,
        before.moves.len() <= after.moves.len() <= before.input.moves.len(),
        after.moves.subrange(0, before.moves.len() as int) == before.moves,
        forall|i: int|
            before.moves.len() <= i < after.moves.len() ==> (#[trigger] after.moves[i]) is None
                && is_blank(before.input.moves[i]),
        match step {
            ValidationStep::FetchMove(key) => after.moves.len() < before.input.moves.len()
                && !is_blank(before.input.moves[after.moves.len() as int]) && key@ == normalized(
                before.input.moves[after.moves.len() as int],
            ),
            ValidationStep::Done(_) => after.moves.len() == before.input.moves.len(),
            ValidationStep::Fail(_) => false,
        },
{
    let j = next_move_lookup(before.input.moves, before.moves.len() as int);
    lemma_next_move_lookup(before.input.moves, before.moves.len() as int);
    assert(after.moves.subrange(0, before.moves.len() as int) =~= before.moves);
    assert forall|i: int| before.moves.len() <= i < after.moves.len() implies (
    #[trigger] after.moves[i]) is None && is_blank(before.input.moves[i]) by {
        assert(after.moves[i] == empty_slots(j - before.moves.len())[i - before.moves.len()]);
    }
}

/// A validation of a submitted team member in progress.
pub struct TeamEntryValidation {
    input: TeamEntryInput,
    existing_id: Option<u64>,
    pokemon_name: Option<String>,
    moves: Vec<Option<MoveInfo>>,
}

impl View for TeamEntryValidation {
    type V = TeamEntryValidationView;

    closed spec fn view(&self) -> TeamEntryValidationView {
        TeamEntryValidationView {
            input: self.input@,
            existing_id: self.existing_id,
            pokemon_name: match self.pokemon_name {
                Some(n) => Some(n@),
                None => None,
            },
            moves: move_slot_views(self.moves@),
        }
    }
}

/// Whether the filled slots agree with the input: a slot is empty exactly when it names no move.
spec fn slots_agree(input: TeamEntryInputView, moves: Seq<Option<MoveInfoView>>) -> bool {
    &&& moves.len() <= input.moves.len()
    &&& forall|i: int| 0 <= i < moves.len() ==> ((#[trigger] moves[i]) is None <==> is_blank(input.moves[i]))
}

/// Moves on from the filled slots `moves` to the next slot that names a move.
fn move_on(input: &TeamEntryInput, filled: Vec<Option<MoveInfo>>) -> (r: (Vec<Option<MoveInfo>>, Option<String>))
    requires
        slots_agree(input@, move_slot_views(filled@)),
    ensures
        move_slot_views(r.0@) == move_slot_views(filled@) + empty_slots(
            next_move_lookup(input@.moves, filled@.len() as int) - filled@.len(),
        ),
        slots_agree(input@, move_slot_views(r.0@)),
        match r.1 {
            Some(key) => next_move_lookup(input@.moves, filled@.len() as int) < input@.moves.len()
                && key@ == normalized(input@.moves[next_move_lookup(input@.moves, filled@.len() as int)]),
            None => next_move_lookup(input@.moves, filled@.len() as int) >= input@.moves.len(),
        },
{
    let ghost start = filled@.len() as int;
    let ghost start_views = move_slot_views(filled@);
    let mut moves = filled;
    let n = input.moves.len();
    assert(move_slot_views(moves@) =~= start_views + empty_slots(0));
    while moves.len() < n
        invariant
            n == input@.moves.len(),
            start == filled@.len(),
            start_views == move_slot_views(filled@),
            start <= moves@.len() <= n,
            next_move_lookup(input@.moves, start) == next_move_lookup(input@.moves, moves@.len() as int),
            move_slot_views(moves@) == start_views + empty_slots(moves@.len() - start),
            slots_agree(input@, move_slot_views(moves@)),
        decreases n - moves@.len(),
    {
        let i = moves.len();
        let key = normalize_name(input.moves[i].as_str());
        assert(input@.moves[i as int] == input.moves@[i as int]@);
        if key.as_str().unicode_len() > 0 {
            assert(next_move_lookup(input@.moves, i as int) == i);
            return (moves, Some(key));
        }
        let ghost before = move_slot_views(moves@);
        moves.push(None);
        assert(move_slot_views(moves@) =~= before.push(None));
        assert(move_slot_views(moves@) =~= start_views + empty_slots(moves@.len() - start));
    }
    (moves, None)
}

impl TeamEntryValidation {
    #[verifier::type_invariant]
    spec fn validation_wf(self) -> bool {
        &&& input_rejection(self@.input) is None
        &&& slots_agree(self@.input, self@.moves)
        &&& self.pokemon_name is None ==> self.moves@.len() == 0
        &&& self.pokemon_name is Some ==> self.moves@.len() == next_move_lookup(
            self@.input.moves,
            self.moves@.len() as int,
        )
    }

    /// Starts validating the member `input`, which keeps the id `existing_id` when
    /// it edits a saved member: refuses it when an input rule fails, and otherwise
    /// asks for the Pokemon lookup under the returned key.
    pub fn start(input: TeamEntryInput, existing_id: Option<u64>) -> (r: Result<(TeamEntryValidation, String), String>)
        ensures
            match r {
                Err(e) => input_rejection(input@) == Some(e@),
                Ok((validation, key)) => input_rejection(input@) is None && validation@ == TeamEntryValidationView {
                    input: input@,
                    existing_id,
                    pokemon_name: None,
                    moves: seq![],
                } && key@ == normalized(input@.pokemon_name),
            },
            r is Ok <==> (1 <= input.level <= 100 && input.moves@.len() == 4 && !is_blank(
                input.pokemon_name@,
            )),
            !(1 <= input.level <= 100) ==> (r matches Err(e) && e@
                == "Level must be between 1 and 100."@),
    {
        proof {
            lemma_input_rules(input@);
        }
        if !(MIN_LEVEL <= input.level && input.level <= MAX_LEVEL) {
            return Err(String::from_str("Level must be between 1 and 100."));
        }
        if input.moves.len() != MOVE_SLOTS {
            return Err(String::from_str("Exactly 4 move slots are required."));
        }
        let key = normalize_name(input.pokemon_name.as_str());
        if key.as_str().unicode_len() == 0 {
            return Err(String::from_str("Please enter a Pokemon name."));
        }
        let moves: Vec<Option<MoveInfo>> = Vec::new();
        assert(move_slot_views(moves@) =~= seq![]);
        let validation = TeamEntryValidation { input, existing_id, pokemon_name: None, moves };
        Ok((validation, key))
    }

    /// Whether the validation waits for the Pokemon lookup.
    pub fn awaits_pokemon(&self) -> (r: bool)
        ensures
            r == awaiting_pokemon(self@),
    {
        self.pokemon_name.is_none()
    }

    /// Whether the validation waits for a move lookup.
    pub fn awaits_move(&self) -> (r: bool)
        ensures
            r == awaiting_move(self@),
    {
        self.pokemon_name.is_some() && self.moves.len() < self.input.moves.len()
    }

    /// Takes the answer of the Pokemon lookup: the species name found, or the
    /// lookup's error, which refuses the member.
    pub fn pokemon_found(self, found: Result<String, String>) -> (r: (TeamEntryValidation, ValidationStep))
        requires
            awaiting_pokemon(self@),
        ensures
            match found {
                Err(e) => r.0@ == self@ && (r.1 matches ValidationStep::Fail(m) && m@ == "Pokemon '"@
                    + trimmed(self@.input.pokemon_name) + "' not found: "@ + e@),
                Ok(name) => moved_on(
                    TeamEntryValidationView { pokemon_name: Some(name@), ..self@ },
                    r.0@,
                    r.1,
                ),
            },
            r.1 matches ValidationStep::Done(e) ==> entry_follows_input(e@, self@.input),
    {
        proof {
            use_type_invariant(&self);
        }
        match found {
            Err(e) => {
                let m = pokemon_not_found_message(self.input.pokemon_name.as_str(), e.as_str());
                (self, ValidationStep::Fail(m))
            },
            Ok(name) => {
                let TeamEntryValidation { input, existing_id, pokemon_name: _, moves } = self;
                proof {
                    lemma_next_move_lookup(input@.moves, moves@.len() as int);
                }
                let (moves, key) = move_on(&input, moves);
                Self::after_move_on(input, existing_id, name, moves, key)
            },
        }
    }

    /// Takes the answer of the lookup of the move awaited: the move found, or an
    /// error, which refuses the member.
    pub fn move_found(self, found: Result<MoveInfo, String>) -> (r: (TeamEntryValidation, ValidationStep))
        requires
            awaiting_move(self@),
        ensures
            match found {
                Err(_) => r.0@ == self@ && (r.1 matches ValidationStep::Fail(m) && m@ == "Move '"@ + trimmed(
                    self@.input.moves[self@.moves.len() as int],
                ) + "' not found"@),
                Ok(info) => moved_on(
                    TeamEntryValidationView { moves: self@.moves.push(Some(info@)), ..self@ },
                    r.0@,
                    r.1,
                ),
            },
            r.1 matches ValidationStep::Done(e) ==> entry_follows_input(e@, self@.input),
    {
        proof {
            use_type_invariant(&self);
        }
        match found {
            Err(_) => {
                let i = self.moves.len();
                assert(self@.input.moves[i as int] == self.input.moves@[i as int]@);
                let m = move_not_found_message(self.input.moves[i].as_str());
                (self, ValidationStep::Fail(m))
            },
            Ok(info) => {
                let TeamEntryValidation { input, existing_id, pokemon_name, moves } = self;
                let mut moves = moves;
                let ghost before = move_slot_views(moves@);
                let ghost info_view = info@;
                let i = moves.len();
                proof {
                    lemma_next_move_lookup(input@.moves, i as int);
                }
                moves.push(Some(info));
                assert(move_slot_views(moves@) =~= before.push(Some(info_view)));
                proof {
                    lemma_next_move_lookup(input@.moves, i + 1);
                }
                let (moves, key) = move_on(&input, moves);
                let name = match pokemon_name {
                    Some(n) => n,
                    None => String::new(),
                };
                Self::after_move_on(input, existing_id, name, moves, key)
            },
        }
    }

    /// The state and step once the validation has moved on: a move lookup, or the finished member.
    fn after_move_on(
        input: TeamEntryInput,
        existing_id: Option<u64>,
        name: String,
        moves: Vec<Option<MoveInfo>>,
        key: Option<String>,
    ) -> (r: (TeamEntryValidation, ValidationStep))
        requires
            input_rejection(input@) is None,
            slots_agree(input@, move_slot_views(moves@)),
            match key {
                Some(k) => moves@.len() < input@.moves.len() && next_move_lookup(
                    input@.moves,
                    moves@.len() as int,
                ) == moves@.len() && k@ == normalized(input@.moves[moves@.len() as int]),
                None => moves@.len() >= input@.moves.len(),
            },
        ensures
            r.0@ == (TeamEntryValidationView {
                input: input@,
                existing_id,
                pokemon_name: Some(name@),
                moves: move_slot_views(moves@),
            }),
            match r.1 {
                ValidationStep::FetchMove(k) => key == Some(k),
                ValidationStep::Done(entry) => key is None && entry@ == finished_entry(r.0@),
                ValidationStep::Fail(_) => false,
            },
            r.1 matches ValidationStep::Done(e) ==> entry_follows_input(e@, input@),
    {
        match key {
            Some(k) => {
                let validation = TeamEntryValidation { input, existing_id, pokemon_name: Some(name), moves };
                (validation, ValidationStep::FetchMove(k))
            },
            None => {
                let entry = TeamEntry {
                    id: match existing_id {
                        Some(id) => id,
                        None => 0,
                    },
                    pokemon_name: name.clone(),
                    nickname: trim(input.nickname.as_str()),
                    level: input.level,
                    moves: copy_move_slots(&moves),
                };
                proof {
                    assert(next_move_lookup(input@.moves, moves@.len() as int) == moves@.len());
                    assert(entry@.moves == move_slot_views(moves@));
                    assert forall|i: int| 0 <= i < MOVE_SLOTS implies ((#[trigger] entry@.moves[i]) is None
                        <==> is_blank(input@.moves[i])) by {
                        assert(move_slot_views(moves@)[i] == entry@.moves[i]);
                    }
                }
                let validation = TeamEntryValidation { input, existing_id, pokemon_name: Some(name), moves };
                (validation, ValidationStep::Done(entry))
            },
        }
    }
}

} // verus!
