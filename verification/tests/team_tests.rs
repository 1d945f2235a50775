use pokemon_assistant::model::{MoveInfo, TeamData, TeamEntry};
use pokemon_assistant::team::{
    delete_team_entry, entry_position, into_team_state_view, new_team_data, save_team_entry,
    set_team_member,
};

fn member(id: u64, name: &str) -> TeamEntry {
    TeamEntry {
        id,
        pokemon_name: name.to_string(),
        nickname: String::new(),
        level: 50,
        moves: vec![None, None, None, None],
    }
}

fn team_of(names: &[&str]) -> TeamData {
    let mut team = new_team_data();
    for name in names {
        team = save_team_entry(team, None, member(0, name));
    }
    team
}

#[test]
fn new_team_is_empty() {
    let team = new_team_data();
    assert_eq!(team.next_entry_id, 1);
    assert!(team.entries.is_empty());
    assert!(team.current_team.is_empty());
}

#[test]
fn save_new_entries_get_increasing_ids() {
    let team = team_of(&["pikachu", "eevee"]);
    assert_eq!(team.entries.len(), 2);
    assert_eq!(team.entries[0].id, 1);
    assert_eq!(team.entries[1].id, 2);
    assert_eq!(team.entries[1].pokemon_name, "eevee");
    assert_eq!(team.next_entry_id, 3);
}

#[test]
fn save_edit_replaces_in_place_and_keeps_id() {
    let team = team_of(&["pikachu", "eevee"]);
    let mut edited = member(0, "raichu");
    edited.nickname = "Sparky".to_string();
    let team = save_team_entry(team, Some(1), edited);
    assert_eq!(team.entries.len(), 2);
    assert_eq!(team.entries[0].id, 1);
    assert_eq!(team.entries[0].pokemon_name, "raichu");
    assert_eq!(team.entries[0].nickname, "Sparky");
    assert_eq!(team.next_entry_id, 3);
}

#[test]
fn save_with_unknown_id_adds_new_entry() {
    let team = team_of(&["pikachu"]);
    let team = save_team_entry(team, Some(42), member(7, "mew"));
    assert_eq!(team.entries.len(), 2);
    assert_eq!(team.entries[1].id, 2);
    assert_eq!(team.next_entry_id, 3);
}

#[test]
fn entry_position_finds_first() {
    let team = team_of(&["a", "b", "c"]);
    assert_eq!(entry_position(&team.entries, 2), Some(1));
    assert_eq!(entry_position(&team.entries, 9), None);
}

#[test]
fn delete_removes_entry_and_team_slot() {
    let team = team_of(&["pikachu", "eevee"]);
    let team = set_team_member(team, 1, true).unwrap();
    let team = set_team_member(team, 2, true).unwrap();
    let team = delete_team_entry(team, 1).unwrap();
    assert_eq!(team.entries.len(), 1);
    assert_eq!(team.entries[0].id, 2);
    assert_eq!(team.current_team, vec![2]);
    assert_eq!(team.next_entry_id, 3);
}

#[test]
fn delete_unknown_entry_fails() {
    let team = team_of(&["pikachu"]);
    assert_eq!(delete_team_entry(team, 5).unwrap_err(), "Team entry not found.");
}

#[test]
fn set_member_selects_once() {
    let team = team_of(&["pikachu"]);
    let team = set_team_member(team, 1, true).unwrap();
    let team = set_team_member(team, 1, true).unwrap();
    assert_eq!(team.current_team, vec![1]);
}

#[test]
fn set_member_deselects() {
    let team = team_of(&["pikachu", "eevee"]);
    let team = set_team_member(team, 1, true).unwrap();
    let team = set_team_member(team, 2, true).unwrap();
    let team = set_team_member(team, 1, false).unwrap();
    assert_eq!(team.current_team, vec![2]);
    let team = set_team_member(team, 1, false).unwrap();
    assert_eq!(team.current_team, vec![2]);
}

#[test]
fn set_member_unknown_fails() {
    let team = team_of(&["pikachu"]);
    assert_eq!(set_team_member(team, 3, true).unwrap_err(), "Team entry not found.");
}

#[test]
fn set_member_team_full() {
    let mut team = team_of(&["a", "b", "c", "d", "e", "f", "g"]);
    for id in 1..=6 {
        team = set_team_member(team, id, true).unwrap();
    }
    assert_eq!(team.current_team.len(), 6);
    let full = set_team_member(team, 7, true);
    assert_eq!(full.unwrap_err(), "Your current team can only have 6 Pokemon.");
}

#[test]
fn set_member_full_team_reselect_ok() {
    let mut team = team_of(&["a", "b", "c", "d", "e", "f"]);
    for id in 1..=6 {
        team = set_team_member(team, id, true).unwrap();
    }
    let team = set_team_member(team, 3, true).unwrap();
    assert_eq!(team.current_team, vec![1, 2, 3, 4, 5, 6]);
}

#[test]
fn state_view_copies_team() {
    let mut team = team_of(&["pikachu"]);
    team.entries[0].moves[1] = Some(MoveInfo { id: 85, name: "thunderbolt".to_string(), move_type: "electric".to_string() });
    let team = set_team_member(team, 1, true).unwrap();
    let view = into_team_state_view(&team);
    assert_eq!(view.entries, team.entries);
    assert_eq!(view.current_team_ids, vec![1]);
}

#[test]
fn delete_after_add_restores_team() {
    let team = set_team_member(team_of(&["pikachu"]), 1, true).unwrap();
    let added = save_team_entry(set_team_member(team_of(&["pikachu"]), 1, true).unwrap(), None, member(0, "eevee"));
    let removed = delete_team_entry(added, 2).unwrap();
    assert_eq!(removed.entries, team.entries);
    assert_eq!(removed.current_team, team.current_team);
    assert_eq!(removed.next_entry_id, team.next_entry_id + 1);
}

#[test]
fn deselect_after_select_restores_team() {
    let team = team_of(&["pikachu", "eevee"]);
    let before = team_of(&["pikachu", "eevee"]);
    let selected = set_team_member(team, 2, true).unwrap();
    let back = set_team_member(selected, 2, false).unwrap();
    assert_eq!(back, before);
}

#[test]
fn saved_member_is_found_by_its_id() {
    let team = team_of(&["pikachu", "eevee"]);
    let position = entry_position(&team.entries, 2).unwrap();
    assert_eq!(team.entries[position].pokemon_name, "eevee");
}
