use pokemon_assistant::entry_validation::{ValidationStep, TeamEntryValidation};
use pokemon_assistant::model::{MoveInfo, TeamEntryInput};

fn input(level: u8, name: &str, moves: &[&str]) -> TeamEntryInput {
    TeamEntryInput {
        id: None,
        pokemon_name: name.to_string(),
        nickname: "  Sparky ".to_string(),
        level,
        moves: moves.iter().map(|m| m.to_string()).collect(),
    }
}

fn thunderbolt() -> MoveInfo {
    MoveInfo { id: 85, name: "thunderbolt".to_string(), move_type: "electric".to_string() }
}

#[test]
fn entry_validation_rejects_level_out_of_range() {
    let err = TeamEntryValidation::start(input(0, "pikachu", &["", "", "", ""]), None).err().unwrap();
    assert_eq!(err, "Level must be between 1 and 100.");
    let err = TeamEntryValidation::start(input(101, "pikachu", &["", "", "", ""]), None).err().unwrap();
    assert_eq!(err, "Level must be between 1 and 100.");
}

#[test]
fn entry_validation_requires_four_slots() {
    let err = TeamEntryValidation::start(input(5, "pikachu", &["", "", ""]), None).err().unwrap();
    assert_eq!(err, "Exactly 4 move slots are required.");
}

#[test]
fn entry_validation_requires_a_name() {
    let err = TeamEntryValidation::start(input(5, "  ", &["", "", "", ""]), None).err().unwrap();
    assert_eq!(err, "Please enter a Pokemon name.");
}

#[test]
fn entry_validation_looks_up_normalized_names() {
    let (validation, key) = TeamEntryValidation::start(input(50, " Pika Chu ", &["", " Thunder Bolt", "", "quick attack"]), Some(7)).ok().unwrap();
    assert_eq!(key, "pika-chu");
    assert!(validation.awaits_pokemon());
    let (validation, step) = validation.pokemon_found(Ok("pikachu".to_string()));
    match &step {
        ValidationStep::FetchMove(k) => assert_eq!(k, "thunder-bolt"),
        _ => panic!("expected a move lookup"),
    }
    assert!(validation.awaits_move());
    let (validation, step) = validation.move_found(Ok(thunderbolt()));
    match &step {
        ValidationStep::FetchMove(k) => assert_eq!(k, "quick-attack"),
        _ => panic!("expected a move lookup"),
    }
    let quick = MoveInfo { id: 98, name: "quick-attack".to_string(), move_type: "normal".to_string() };
    let (_validation, step) = validation.move_found(Ok(quick.clone()));
    match step {
        ValidationStep::Done(entry) => {
            assert_eq!(entry.id, 7);
            assert_eq!(entry.pokemon_name, "pikachu");
            assert_eq!(entry.nickname, "Sparky");
            assert_eq!(entry.level, 50);
            assert_eq!(entry.moves, vec![None, Some(thunderbolt()), None, Some(quick)]);
        },
        _ => panic!("expected the finished member"),
    }
}

#[test]
fn entry_validation_without_moves_finishes_after_pokemon() {
    let (validation, _key) = TeamEntryValidation::start(input(1, "eevee", &["", " ", "", "\t"]), None).ok().unwrap();
    let (_validation, step) = validation.pokemon_found(Ok("eevee".to_string()));
    match step {
        ValidationStep::Done(entry) => {
            assert_eq!(entry.id, 0);
            assert_eq!(entry.moves, vec![None, None, None, None]);
        },
        _ => panic!("expected the finished member"),
    }
}

#[test]
fn entry_validation_reports_missing_pokemon() {
    let (validation, _key) = TeamEntryValidation::start(input(10, " Pikachoo ", &["", "", "", ""]), None).ok().unwrap();
    let (_validation, step) = validation.pokemon_found(Err("Request failed: timeout".to_string()));
    match step {
        ValidationStep::Fail(m) => assert_eq!(m, "Pokemon 'Pikachoo' not found: Request failed: timeout"),
        _ => panic!("expected a refusal"),
    }
}

#[test]
fn entry_validation_reports_missing_move() {
    let (validation, _key) = TeamEntryValidation::start(input(10, "pikachu", &["Thundr ", "", "", ""]), None).ok().unwrap();
    let (validation, _step) = validation.pokemon_found(Ok("pikachu".to_string()));
    let (_validation, step) = validation.move_found(Err("PokeAPI returned status 404 Not Found".to_string()));
    match step {
        ValidationStep::Fail(m) => assert_eq!(m, "Move 'Thundr' not found"),
        _ => panic!("expected a refusal"),
    }
}
