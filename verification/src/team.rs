//! The saved team: adding and editing members, removing them, and choosing
//! which of them are on the current team.

use vstd::prelude::*;

use crate::model::{TeamData, TeamDataView, TeamEntry, TeamEntryView, TeamStateView};

verus! {

/// The most members the current team holds.
pub const MAX_TEAM_SIZE: usize = 6;

/// The models of the members `entries`.
pub open spec fn entry_views(entries: Seq<TeamEntry>) -> Seq<TeamEntryView> {
    entries.map_values(|e: TeamEntry| e@)
}

/// The models of members keep them place by place.
pub proof fn lemma_entry_views_in_place(entries: Seq<TeamEntry>)
    ensures
        entry_views(entries).len() == entries.len(),
        forall|i: int| 0 <= i < entries.len() ==> #[trigger] entry_views(entries)[i] == entries[i]@,
{
}

/// The index of the first member with the id `id`, if there is one.
pub open spec fn position_of(entries: Seq<TeamEntryView>, id: u64) -> Option<int>
    decreases entries.len(),
{
    if entries.len() == 0 {
        None
    } else if entries[0].id == id {
        Some(0)
    } else {
        match position_of(entries.drop_first(), id) {
            Some(i) => Some(i + 1),
            None => None,
        }
    }
}

/// The members `entries` without those with the id `id`, in order.
pub open spec fn entries_without(entries: Seq<TeamEntryView>, id: u64) -> Seq<TeamEntryView>
    decreases entries.len(),
{
    if entries.len() == 0 {
        seq![]
    } else {
        let before = entries_without(entries.drop_last(), id);
        if entries.last().id != id {
            before.push(entries.last())
        } else {
            before
        }
    }
}

/// The ids `ids` without `id`, in order.
pub open spec fn ids_without(ids: Seq<u64>, id: u64) -> Seq<u64>
    decreases ids.len(),
{
    if ids.len() == 0 {
        seq![]
    } else {
        let before = ids_without(ids.drop_last(), id);
        if ids.last() != id {
            before.push(ids.last())
        } else {
            before
        }
    }
}

/// Whether some member has the id `id`.
pub open spec fn has_entry(t: TeamDataView, id: u64) -> bool {
    exists|i: int| 0 <= i < t.entries.len() && #[trigger] t.entries[i].id == id
}

/// The team after saving the member `e`: an edit (`input_id` names a saved
/// member) replaces that member and keeps its id; otherwise `e` is added with
/// the next id, and the next id moves on by one.
pub open spec fn saved(t: TeamDataView, input_id: Option<u64>, e: TeamEntryView) -> TeamDataView {
    let pos = match input_id {
        Some(id) => position_of(t.entries, id),
        None => None,
    };
    match pos {
        Some(i) => TeamDataView {
            entries: t.entries.update(i, TeamEntryView { id: t.entries[i].id, ..e }),
            ..t
        },
        None => TeamDataView {
            next_entry_id: (t.next_entry_id + 1) as u64,
            entries: t.entries.push(TeamEntryView { id: t.next_entry_id, ..e }),
            ..t
        },
    }
}

/// What saving the member `e` does, read off the members: it never changes the
/// current team. When `input_id` is the id of a saved member, the first member
/// with that id is replaced by `e` under that id, and the other members and the
/// next id stay. Otherwise `e` is added at the end under the next id, and the
/// next id moves on by one.
pub proof fn lemma_save_effects(t: TeamDataView, input_id: Option<u64>, e: TeamEntryView)
    ensures
        saved(t, input_id, e).current_team == t.current_team,
        forall|k: int|
            #![trigger t.entries[k]]
            0 <= k < t.entries.len() && input_id == Some(t.entries[k].id) && (forall|j: int|
                0 <= j < k ==> (#[trigger] t.entries[j]).id != t.entries[k].id) ==> {
                &&& saved(t, input_id, e).entries == t.entries.update(
                    k,
                    TeamEntryView { id: t.entries[k].id, ..e },
                )
                &&& saved(t, input_id, e).next_entry_id == t.next_entry_id
            },
        (forall|j: int| 0 <= j < t.entries.len() ==> Some((#[trigger] t.entries[j]).id) != input_id)
            ==> {
            &&& saved(t, input_id, e).entries == t.entries.push(
                TeamEntryView { id: t.next_entry_id, ..e },
            )
            &&& t.next_entry_id < u64::MAX ==> saved(t, input_id, e).next_entry_id
                == t.next_entry_id + 1
        },
{
    match input_id {
        Some(id) => {
            lemma_position_of(t.entries, id);
            assert forall|k: int|
                #![trigger t.entries[k]]
                0 <= k < t.entries.len() && input_id == Some(t.entries[k].id) && (forall|j: int|
                    0 <= j < k ==> (#[trigger] t.entries[j]).id != t.entries[k].id) implies position_of(
                t.entries,
                id,
            ) == Some(k) by {
                match position_of(t.entries, id) {
                    Some(p) => {
                        if p < k {
                        } else if p > k {
                            assert(t.entries[k].id != id);
                        }
                    },
                    None => {
                        assert(t.entries[k].id != id);
                    },
                }
            }
            if forall|j: int| 0 <= j < t.entries.len() ==> Some((#[trigger] t.entries[j]).id) != input_id {
                match position_of(t.entries, id) {
                    Some(p) => {
                        assert(Some(t.entries[p].id) != input_id);
                    },
                    None => {},
                }
            }
        },
        None => {},
    }
}

/// `entries_without` keeps, in order, the members whose id is not `id`.
proof fn lemma_entries_without_filter(entries: Seq<TeamEntryView>, id: u64)
    ensures
        entries_without(entries, id) == entries.filter(|e: TeamEntryView| e.id != id),
    decreases entries.len(),
{
    reveal(Seq::filter);
    if entries.len() > 0 {
        lemma_entries_without_filter(entries.drop_last(), id);
    } else {
        assert(entries_without(entries, id) =~= entries);
    }
}

/// `ids_without` keeps, in order, the ids other than `id`.
proof fn lemma_ids_without_filter(ids: Seq<u64>, id: u64)
    ensures
        ids_without(ids, id) == ids.filter(|x: u64| x != id),
    decreases ids.len(),
{
    reveal(Seq::filter);
    if ids.len() > 0 {
        lemma_ids_without_filter(ids.drop_last(), id);
    } else {
        assert(ids_without(ids, id) =~= ids);
    }
}

/// What removing the member `id` does: when no member has that id it is
/// refused; otherwise the members and the current team keep, in order, exactly
/// what does not have that id, and the next id stays.
pub proof fn lemma_delete_effects(t: TeamDataView, id: u64)
    ensures
        match entry_deleted(t, id) {
            Ok(r) => {
                &&& exists|j: int| 0 <= j < t.entries.len() && (#[trigger] t.entries[j]).id == id
                &&& r.entries == t.entries.filter(|e: TeamEntryView| e.id != id)
                &&& r.current_team == t.current_team.filter(|x: u64| x != id)
                &&& r.next_entry_id == t.next_entry_id
            },
            Err(e) => {
                &&& forall|j: int| 0 <= j < t.entries.len() ==> (#[trigger] t.entries[j]).id != id
                &&& e == "Team entry not found."@
            },
        },
{
    lemma_entries_without_filter(t.entries, id);
    lemma_ids_without_filter(t.current_team, id);
}

/// What putting the member `id` on the current team (`selected`) or taking it
/// off does: refused when no member has that id; selecting a member already on
/// the team changes nothing; selecting another adds it at the end when fewer
/// than six are on the team and is refused when six are; deselecting keeps, in
/// order, the other ids. The members and the next id never change.
pub proof fn lemma_set_effects(t: TeamDataView, id: u64, selected: bool)
    ensures
        match member_set(t, id, selected) {
            Ok(r) => {
                &&& exists|j: int| 0 <= j < t.entries.len() && (#[trigger] t.entries[j]).id == id
                &&& r.entries == t.entries
                &&& r.next_entry_id == t.next_entry_id
                &&& selected && t.current_team.contains(id) ==> r.current_team == t.current_team
                &&& selected && !t.current_team.contains(id) ==> t.current_team.len() < 6
                    && r.current_team == t.current_team.push(id)
                &&& !selected ==> r.current_team == t.current_team.filter(|x: u64| x != id)
            },
            Err(e) => {
                ||| (forall|j: int| 0 <= j < t.entries.len() ==> (#[trigger] t.entries[j]).id != id)
                    && e == "Team entry not found."@
                ||| (exists|j: int| 0 <= j < t.entries.len() && (#[trigger] t.entries[j]).id == id)
                    && selected && !t.current_team.contains(id) && t.current_team.len() >= 6 && e
                    == "Your current team can only have 6 Pokemon."@
            },
        },
{
    lemma_ids_without_filter(t.current_team, id);
}

/// Whether saving would add a member while the next id is already the largest one.
pub open spec fn save_overflows(t: TeamDataView, input_id: Option<u64>) -> bool {
    let pos = match input_id {
        Some(id) => position_of(t.entries, id),
        None => None,
    };
    pos is None && t.next_entry_id == u64::MAX
}

/// The team after removing the member `id`, or the error when there is none.
pub open spec fn entry_deleted(t: TeamDataView, id: u64) -> Result<TeamDataView, Seq<char>> {
    if has_entry(t, id) {
        Ok(
            TeamDataView {
                entries: entries_without(t.entries, id),
                current_team: ids_without(t.current_team, id),
                ..t
            },
        )
    } else {
        Err("Team entry not found."@)
    }
}

/// The team after putting the member `id` on the current team (`selected`) or
/// taking it off, or the error when there is no such member or the team is full.
pub open spec fn member_set(t: TeamDataView, id: u64, selected: bool) -> Result<
    TeamDataView,
    Seq<char>,
> {
    if !has_entry(t, id) {
        Err("Team entry not found."@)
    } else if selected {
        if t.current_team.contains(id) {
            Ok(t)
        } else if t.current_team.len() >= MAX_TEAM_SIZE {
            Err("Your current team can only have 6 Pokemon."@)
        } else {
            Ok(TeamDataView { current_team: t.current_team.push(id), ..t })
        }
    } else {
        Ok(TeamDataView { current_team: ids_without(t.current_team, id), ..t })
    }
}

/// What `position_of` finds: the first member with the id, or no member with it.
pub proof fn lemma_position_of(entries: Seq<TeamEntryView>, id: u64)
    ensures
        match position_of(entries, id) {
            Some(i) => 0 <= i < entries.len() && entries[i].id == id && forall|j: int|
                0 <= j < i ==> (#[trigger] entries[j]).id != id,
            None => forall|j: int| 0 <= j < entries.len() ==> (#[trigger] entries[j]).id != id,
        },
    decreases entries.len(),
{
    if entries.len() > 0 {
        let rest = entries.drop_first();
        lemma_position_of(rest, id);
        assert forall|j: int| 1 <= j < entries.len() implies (#[trigger] entries[j]) == rest[j - 1] by {}
        if entries[0].id != id {
            match position_of(rest, id) {
                Some(i) => {
                    assert forall|j: int| 0 <= j < i + 1 implies (#[trigger] entries[j]).id != id by {
                        if j > 0 {
                            assert(entries[j] == rest[j - 1]);
                        }
                    }
                },
                None => {
                    assert forall|j: int| 0 <= j < entries.len() implies (#[trigger] entries[j]).id != id by {
                        if j > 0 {
                            assert(entries[j] == rest[j - 1]);
                        }
                    }
                },
            }
        }
    }
}

/// A team with no members, whose first member gets the id 1.
pub open spec fn empty_team() -> TeamDataView {
    TeamDataView { next_entry_id: 1, entries: seq![], current_team: seq![] }
}

/// The team used before any has been saved.
pub fn new_team_data() -> (r: TeamData)
    ensures
        r@ == empty_team(),
        r.next_entry_id == 1,
        r.entries@.len() == 0,
        r.current_team@.len() == 0,
{
    let r = TeamData { next_entry_id: 1, entries: Vec::new(), current_team: Vec::new() };
    assert(r@.entries =~= seq![]);
    r
}

/// The index of the first member with the id `id`.
pub fn entry_position(entries: &Vec<TeamEntry>, id: u64) -> (r: Option<usize>)
    ensures
        match r {
            Some(i) => position_of(entry_views(entries@), id) == Some(i as int) && i < entries@.len()
                && entries@[i as int].id == id,
            None => position_of(entry_views(entries@), id) is None,
        },
{
    let ghost views = entry_views(entries@);
    proof {
        lemma_position_of(views, id);
    }
    let n = entries.len();
    let mut i: usize = 0;
    while i < n
        invariant
            n == entries@.len(),
            views == entry_views(entries@),
            i <= n,
            forall|j: int| 0 <= j < i ==> (#[trigger] views[j]).id != id,
        decreases n - i,
    {
        if entries[i].id == id {
            assert(views[i as int].id == id);
            proof {
                lemma_position_of(views, id);
                match position_of(views, id) {
                    Some(p) => {
                        if p < i {
                            assert(views[p].id != id);
                        }
                        if p > i {
                            assert(views[i as int].id != id);
                        }
                    },
                    None => {
                        assert(views[i as int].id != id);
                    },
                }
            }
            return Some(i);
        }
        assert(views[i as int].id != id);
        i += 1;
    }
    proof {
        lemma_position_of(views, id);
        match position_of(views, id) {
            Some(p) => {
                assert(views[p].id != id);
            },
            None => {},
        }
    }
    None
}

/// Saves the member `entry`: an edit of the saved member `input_id` replaces it
/// and keeps its id; otherwise the member is added with the next id.
pub fn save_team_entry(team: TeamData, input_id: Option<u64>, entry: TeamEntry) -> (r: TeamData)
    requires
        !save_overflows(team@, input_id),
    ensures
        r@ == saved(team@, input_id, entry@),
        r@.current_team == team@.current_team,
{
    proof {
        lemma_save_effects(team@, input_id, entry@);
    }
    let mut team = team;
    let mut entry = entry;
    let pos = match input_id {
        Some(id) => entry_position(&team.entries, id),
        None => None,
    };
    let ghost old_team = team@;
    match pos {
        Some(i) => {
            entry.id = team.entries[i].id;
            let ghost e = entry@;
            team.entries.set(i, entry);
            assert(team@.entries =~= old_team.entries.update(i as int, e));
        },
        None => {
            entry.id = team.next_entry_id;
            team.next_entry_id = team.next_entry_id + 1;
            let ghost e = entry@;
            team.entries.push(entry);
            assert(team@.entries =~= old_team.entries.push(e));
        },
    }
    team
}

/// The ids `ids` without `id`.
fn without_id(ids: &Vec<u64>, id: u64) -> (r: Vec<u64>)
    ensures
        r@ == ids_without(ids@, id),
{
    let mut r: Vec<u64> = Vec::new();
    let n = ids.len();
    let mut i: usize = 0;
    assert(ids@.take(0) =~= seq![]);
    while i < n
        invariant
            n == ids@.len(),
            i <= n,
            r@ == ids_without(ids@.take(i as int), id),
        decreases n - i,
    {
        assert(ids@.take(i + 1).drop_last() =~= ids@.take(i as int));
        if ids[i] != id {
            r.push(ids[i]);
        }
        i += 1;
    }
    assert(ids@.take(n as int) =~= ids@);
    r
}

/// Removes the member `entry_id` from the saved members and from the current team.
pub fn delete_team_entry(team: TeamData, entry_id: u64) -> (r: Result<TeamData, String>)
    ensures
        match r {
            Ok(t) => entry_deleted(team@, entry_id) == Ok::<TeamDataView, Seq<char>>(t@),
            Err(e) => entry_deleted(team@, entry_id) == Err::<TeamDataView, Seq<char>>(e@),
        },
{
    let ghost views = team@.entries;
    let mut kept: Vec<TeamEntry> = Vec::new();
    let mut found = false;
    let n = team.entries.len();
    let mut i: usize = 0;
    assert(views.take(0) =~= seq![]);
    assert(entry_views(kept@) =~= seq![]);
    while i < n
        invariant
            n == team.entries@.len(),
            views == team@.entries,
            i <= n,
            entry_views(kept@) == entries_without(views.take(i as int), entry_id),
            found == exists|j: int| 0 <= j < i && (#[trigger] views[j]).id == entry_id,
        decreases n - i,
    {
        assert(views.take(i + 1).drop_last() =~= views.take(i as int));
        assert(views[i as int] == team.entries@[i as int]@);
        if team.entries[i].id != entry_id {
            let ghost before = kept@;
            let e = team.entries[i].clone();
            kept.push(e);
            assert(entry_views(kept@) =~= entry_views(before).push(views[i as int]));
        } else {
            found = true;
        }
        i += 1;
    }
    assert(views.take(n as int) =~= views);
    if !found {
        return Err(String::from_str("Team entry not found."));
    }
    let current = without_id(&team.current_team, entry_id);
    let r = TeamData { next_entry_id: team.next_entry_id, entries: kept, current_team: current };
    assert(has_entry(team@, entry_id));
    Ok(r)
}

/// Puts the member `entry_id` on the current team, or takes it off.
pub fn set_team_member(team: TeamData, entry_id: u64, selected: bool) -> (r: Result<TeamData, String>)
    ensures
        match r {
            Ok(t) => member_set(team@, entry_id, selected) == Ok::<TeamDataView, Seq<char>>(t@),
            Err(e) => member_set(team@, entry_id, selected) == Err::<TeamDataView, Seq<char>>(e@),
        },
{
    let mut team = team;
    let ghost old_team = team@;
    match entry_position(&team.entries, entry_id) {
        None => {
            proof {
                lemma_position_of(team@.entries, entry_id);
            }
            return Err(String::from_str("Team entry not found."));
        },
        Some(i) => {
            proof {
                lemma_position_of(team@.entries, entry_id);
            }
            assert(team@.entries[i as int].id == entry_id);
        },
    }
    if selected {
        let mut contains = false;
        let n = team.current_team.len();
        let mut k: usize = 0;
        while k < n
            invariant
                n == team.current_team@.len(),
                k <= n,
                contains == team.current_team@.take(k as int).contains(entry_id),
            decreases n - k,
        {
            assert(team.current_team@.take(k + 1) =~= team.current_team@.take(k as int).push(
                team.current_team@[k as int],
            ));
            proof {
                let s1 = team.current_team@.take(k + 1);
                if s1.contains(entry_id) && team.current_team@[k as int] != entry_id {
                    let j = choose|j: int| 0 <= j < s1.len() && s1[j] == entry_id;
                    assert(team.current_team@.take(k as int)[j] == entry_id);
                }
            }
            if team.current_team[k] == entry_id {
                assert(team.current_team@.take(k + 1)[k as int] == entry_id);
                contains = true;
            }
            k += 1;
        }
        assert(team.current_team@.take(n as int) =~= team.current_team@);
        if !contains {
            if team.current_team.len() >= MAX_TEAM_SIZE {
                return Err(String::from_str("Your current team can only have 6 Pokemon."));
            }
            team.current_team.push(entry_id);
        }
    } else {
        team.current_team = without_id(&team.current_team, entry_id);
    }
    assert(has_entry(old_team, entry_id));
    Ok(team)
}

/// The saved team as the team page shows it.
pub fn into_team_state_view(team_data: &TeamData) -> (r: TeamStateView)
    ensures
        entry_views(r.entries@) == team_data@.entries,
        r.current_team_ids@ == team_data.current_team@,
{
    let mut entries: Vec<TeamEntry> = Vec::new();
    let n = team_data.entries.len();
    let mut i: usize = 0;
    while i < n
        invariant
            n == team_data.entries@.len(),
            i <= n,
            entries@.len() == i,
            forall|j: int| 0 <= j < i ==> (#[trigger] entries@[j])@ == team_data.entries@[j]@,
        decreases n - i,
    {
        entries.push(team_data.entries[i].clone());
        i += 1;
    }
    assert(entry_views(entries@) =~= team_data@.entries);
    let mut ids: Vec<u64> = Vec::new();
    let m = team_data.current_team.len();
    let mut k: usize = 0;
    while k < m
        invariant
            m == team_data.current_team@.len(),
            k <= m,
            ids@ == team_data.current_team@.take(k as int),
        decreases m - k,
    {
        ids.push(team_data.current_team[k]);
        assert(team_data.current_team@.take(k + 1) =~= team_data.current_team@.take(k as int).push(
            team_data.current_team@[k as int],
        ));
        k += 1;
    }
    assert(team_data.current_team@.take(m as int) =~= team_data.current_team@);
    TeamStateView { entries, current_team_ids: ids }
}

/// Whether the saved team is consistent: member ids are distinct and below the
/// next id, the current team holds distinct ids of saved members, and at most
/// `MAX_TEAM_SIZE` of them.
pub open spec fn team_wf(t: TeamDataView) -> bool {
    &&& forall|i: int, j: int|
        0 <= i < j < t.entries.len() ==> (#[trigger] t.entries[i]).id != (#[trigger] t.entries[j]).id
    &&& forall|i: int| 0 <= i < t.entries.len() ==> (#[trigger] t.entries[i]).id < t.next_entry_id
    &&& forall|k: int| 0 <= k < t.current_team.len() ==> has_entry(t, #[trigger] t.current_team[k])
    &&& forall|a: int, b: int|
        0 <= a < b < t.current_team.len() ==> #[trigger] t.current_team[a] != #[trigger] t.current_team[b]
    &&& t.current_team.len() <= MAX_TEAM_SIZE
}

/// What `ids_without` keeps: the ids other than `id`, each one of `ids`, no
/// repetition where `ids` had none.
pub proof fn lemma_ids_without(ids: Seq<u64>, id: u64)
    ensures
        ids_without(ids, id).len() <= ids.len(),
        forall|k: int|
            0 <= k < ids_without(ids, id).len() ==> #[trigger] ids_without(ids, id)[k] != id
                && ids.contains(ids_without(ids, id)[k]),
        forall|k: int| 0 <= k < ids.len() && #[trigger] ids[k] != id ==> ids_without(ids, id).contains(ids[k]),
        (forall|a: int, b: int| 0 <= a < b < ids.len() ==> #[trigger] ids[a] != #[trigger] ids[b]) ==> (forall|
            a: int,
            b: int,
        |
            0 <= a < b < ids_without(ids, id).len() ==> #[trigger] ids_without(ids, id)[a]
                != #[trigger] ids_without(ids, id)[b]),
        !ids.contains(id) ==> ids_without(ids, id) == ids,
    decreases ids.len(),
{
    if ids.len() > 0 {
        let d = ids.drop_last();
        let last = ids.last();
        lemma_ids_without(d, id);
        let r = ids_without(ids, id);
        let rd = ids_without(d, id);
        assert forall|k: int| 0 <= k < r.len() implies #[trigger] r[k] != id && ids.contains(r[k]) by {
            if k < rd.len() {
                assert(r[k] == rd[k]);
                let j = choose|j: int| 0 <= j < d.len() && d[j] == rd[k];
                assert(ids[j] == d[j]);
            } else {
                assert(ids[ids.len() - 1] == last);
            }
        }
        assert forall|k: int| 0 <= k < ids.len() && #[trigger] ids[k] != id implies r.contains(ids[k]) by {
            if k < d.len() {
                assert(d[k] == ids[k]);
                let j = choose|j: int| 0 <= j < rd.len() && rd[j] == d[k];
                assert(r[j] == rd[j]);
            } else {
                assert(r[r.len() - 1] == last);
            }
        }
        if forall|a: int, b: int| 0 <= a < b < ids.len() ==> #[trigger] ids[a] != #[trigger] ids[b] {
            assert forall|a: int, b: int| 0 <= a < b < d.len() implies #[trigger] d[a] != #[trigger] d[b] by {
                assert(d[a] == ids[a] && d[b] == ids[b]);
            }
            assert forall|a: int, b: int| 0 <= a < b < r.len() implies #[trigger] r[a] != #[trigger] r[b] by {
                if b < rd.len() {
                    assert(r[a] == rd[a] && r[b] == rd[b]);
                } else {
                    assert(r[a] == rd[a]);
                    assert(r[b] == last);
                    let j = choose|j: int| 0 <= j < d.len() && d[j] == rd[a];
                    assert(ids[j] == d[j]);
                    assert(ids[ids.len() - 1] == last);
                }
            }
        }
        if !ids.contains(id) {
            assert forall|j: int| 0 <= j < d.len() implies #[trigger] d[j] != id by {
                assert(d[j] == ids[j]);
            }
            assert(!d.contains(id));
            assert(ids[ids.len() - 1] == last);
            assert(ids =~= d.push(last));
        }
    }
}

/// Every member `entries_without` keeps is one of `entries` and has another id.
pub proof fn lemma_entries_without_from(entries: Seq<TeamEntryView>, id: u64)
    ensures
        forall|k: int|
            0 <= k < entries_without(entries, id).len() ==> (#[trigger] entries_without(entries, id)[k]).id
                != id && exists|j: int|
                0 <= j < entries.len() && entries[j] == entries_without(entries, id)[k],
    decreases entries.len(),
{
    if entries.len() > 0 {
        let d = entries.drop_last();
        lemma_entries_without_from(d, id);
        let r = entries_without(entries, id);
        let rd = entries_without(d, id);
        assert(entries[entries.len() - 1] == entries.last());
        assert forall|k: int| 0 <= k < r.len() implies (#[trigger] r[k]).id != id && exists|j: int|
            0 <= j < entries.len() && entries[j] == r[k] by {
            if k < rd.len() {
                assert(r[k] == rd[k]);
                let j = choose|j: int| 0 <= j < d.len() && d[j] == rd[k];
                assert(entries[j] == d[j]);
            }
        }
    }
}

/// `entries_without` keeps every member whose id is not `id`.
pub proof fn lemma_entries_without_keeps(entries: Seq<TeamEntryView>, id: u64)
    ensures
        forall|j: int|
            0 <= j < entries.len() && (#[trigger] entries[j]).id != id ==> exists|k: int|
                0 <= k < entries_without(entries, id).len() && entries_without(entries, id)[k]
                    == entries[j],
    decreases entries.len(),
{
    if entries.len() > 0 {
        let d = entries.drop_last();
        lemma_entries_without_keeps(d, id);
        let r = entries_without(entries, id);
        let rd = entries_without(d, id);
        assert(entries[entries.len() - 1] == entries.last());
        assert forall|j: int| 0 <= j < entries.len() && (#[trigger] entries[j]).id != id implies exists|k: int|
            0 <= k < r.len() && r[k] == entries[j] by {
            if j < d.len() {
                assert(d[j] == entries[j]);
                let k = choose|k: int| 0 <= k < rd.len() && rd[k] == d[j];
                assert(r[k] == rd[k]);
            } else {
                assert(r[r.len() - 1] == entries.last());
            }
        }
    }
}

/// `entries_without` keeps member ids distinct.
pub proof fn lemma_entries_without_distinct(entries: Seq<TeamEntryView>, id: u64)
    requires
        forall|a: int, b: int|
            0 <= a < b < entries.len() ==> (#[trigger] entries[a]).id != (#[trigger] entries[b]).id,
    ensures
        forall|a: int, b: int|
            0 <= a < b < entries_without(entries, id).len() ==> (#[trigger] entries_without(
                entries,
                id,
            )[a]).id != (#[trigger] entries_without(entries, id)[b]).id,
    decreases entries.len(),
{
    if entries.len() > 0 {
        let d = entries.drop_last();
        let last = entries.last();
        assert(entries[entries.len() - 1] == last);
        assert forall|a: int, b: int| 0 <= a < b < d.len() implies (#[trigger] d[a]).id != (
        #[trigger] d[b]).id by {
            assert(d[a] == entries[a] && d[b] == entries[b]);
        }
        lemma_entries_without_distinct(d, id);
        lemma_entries_without_from(d, id);
        let r = entries_without(entries, id);
        let rd = entries_without(d, id);
        assert forall|a: int, b: int| 0 <= a < b < r.len() implies (#[trigger] r[a]).id != (
        #[trigger] r[b]).id by {
            if b < rd.len() {
                assert(r[a] == rd[a] && r[b] == rd[b]);
            } else {
                assert(r[a] == rd[a]);
                assert(r[b] == last);
                let j = choose|j: int| 0 <= j < d.len() && d[j] == rd[a];
                assert(entries[j] == d[j]);
            }
        }
    }
}

/// The team used before any has been saved is consistent.
pub proof fn lemma_empty_team_wf()
    ensures
        team_wf(empty_team()),
{
}

/// Saving a member keeps the team consistent.
pub proof fn lemma_save_keeps_wf(t: TeamDataView, input_id: Option<u64>, e: TeamEntryView)
    requires
        team_wf(t),
        !save_overflows(t, input_id),
    ensures
        team_wf(saved(t, input_id, e)),
{
    let r = saved(t, input_id, e);
    let pos = match input_id {
        Some(id) => position_of(t.entries, id),
        None => None,
    };
    if let Some(id) = input_id {
        lemma_position_of(t.entries, id);
    }
    match pos {
        Some(i) => {
            assert forall|j: int| 0 <= j < r.entries.len() implies (#[trigger] r.entries[j]).id
                == t.entries[j].id by {}
            assert forall|k: int| 0 <= k < r.current_team.len() implies has_entry(
                r,
                #[trigger] r.current_team[k],
            ) by {
                assert(has_entry(t, t.current_team[k]));
                let j = choose|j: int| 0 <= j < t.entries.len() && #[trigger] t.entries[j].id == t.current_team[k];
                assert(r.entries[j].id == t.entries[j].id);
            }
        },
        None => {
            assert forall|j: int| 0 <= j < t.entries.len() implies (#[trigger] r.entries[j]) == t.entries[j] by {}
            assert forall|k: int| 0 <= k < r.current_team.len() implies has_entry(
                r,
                #[trigger] r.current_team[k],
            ) by {
                assert(has_entry(t, t.current_team[k]));
                let j = choose|j: int| 0 <= j < t.entries.len() && #[trigger] t.entries[j].id == t.current_team[k];
                assert(r.entries[j] == t.entries[j]);
            }
            assert forall|a: int, b: int| 0 <= a < b < r.entries.len() implies (#[trigger] r.entries[a]).id
                != (#[trigger] r.entries[b]).id by {
                if b == t.entries.len() {
                    assert(r.entries[a] == t.entries[a]);
                } else {
                    assert(r.entries[a] == t.entries[a] && r.entries[b] == t.entries[b]);
                }
            }
            assert forall|j: int| 0 <= j < r.entries.len() implies (#[trigger] r.entries[j]).id
                < r.next_entry_id by {
                if j < t.entries.len() {
                    assert(r.entries[j] == t.entries[j]);
                }
            }
        },
    }
}

/// A saved member can be found again under its id, holding what was saved: an
/// edit keeps the member's place and id, an addition goes last under the old next id.
pub proof fn lemma_save_then_find(t: TeamDataView, input_id: Option<u64>, e: TeamEntryView)
    requires
        team_wf(t),
        !save_overflows(t, input_id),
    ensures
        ({
            let r = saved(t, input_id, e);
            let pos = match input_id {
                Some(id) => position_of(t.entries, id),
                None => None,
            };
            match pos {
                Some(i) => position_of(r.entries, input_id->0) == Some(i) && r.entries[i] == TeamEntryView {
                    id: input_id->0,
                    ..e
                } && r.entries.len() == t.entries.len(),
                None => position_of(r.entries, t.next_entry_id) == Some(t.entries.len() as int)
                    && r.entries[t.entries.len() as int] == TeamEntryView { id: t.next_entry_id, ..e }
                    && r.entries.len() == t.entries.len() + 1,
            }
        }),
{
    let r = saved(t, input_id, e);
    let pos = match input_id {
        Some(id) => position_of(t.entries, id),
        None => None,
    };
    match pos {
        Some(i) => {
            let id = input_id->0;
            lemma_position_of(t.entries, id);
            lemma_position_of(r.entries, id);
            assert(r.entries[i].id == id);
            match position_of(r.entries, id) {
                Some(p) => {
                    if p < i {
                        assert(r.entries[p] == t.entries[p]);
                    }
                    if p > i {
                        assert(r.entries[i].id != id);
                    }
                },
                None => {
                    assert(r.entries[i].id != id);
                },
            }
        },
        None => {
            let id = t.next_entry_id;
            let n = t.entries.len() as int;
            lemma_position_of(r.entries, id);
            match position_of(r.entries, id) {
                Some(p) => {
                    if p < n {
                        assert(r.entries[p] == t.entries[p]);
                    }
                },
                None => {
                    assert(r.entries[n].id == id);
                },
            }
        },
    }
}

/// Removing a member keeps the team consistent, and afterwards no member and no
/// place on the current team has its id.
pub proof fn lemma_delete_keeps_wf(t: TeamDataView, id: u64)
    requires
        team_wf(t),
        entry_deleted(t, id) is Ok,
    ensures
        team_wf(entry_deleted(t, id)->Ok_0),
        !has_entry(entry_deleted(t, id)->Ok_0, id),
        !entry_deleted(t, id)->Ok_0.current_team.contains(id),
{
    let r = entry_deleted(t, id)->Ok_0;
    lemma_entries_without_from(t.entries, id);
    lemma_entries_without_keeps(t.entries, id);
    lemma_entries_without_distinct(t.entries, id);
    lemma_ids_without(t.current_team, id);
    assert forall|j: int| 0 <= j < r.entries.len() implies (#[trigger] r.entries[j]).id < r.next_entry_id by {
        let x = choose|x: int| 0 <= x < t.entries.len() && t.entries[x] == r.entries[j];
    }
    assert forall|k: int| 0 <= k < r.current_team.len() implies has_entry(r, #[trigger] r.current_team[k]) by {
        let c = r.current_team[k];
        let x = choose|x: int| 0 <= x < t.current_team.len() && t.current_team[x] == c;
        assert(has_entry(t, t.current_team[x]));
        let j = choose|j: int| 0 <= j < t.entries.len() && #[trigger] t.entries[j].id == c;
        let m = choose|m: int| 0 <= m < r.entries.len() && r.entries[m] == t.entries[j];
        assert(r.entries[m].id == c);
    }
    if has_entry(r, id) {
        let j = choose|j: int| 0 <= j < r.entries.len() && #[trigger] r.entries[j].id == id;
    }
    if r.current_team.contains(id) {
        let k = choose|k: int| 0 <= k < r.current_team.len() && r.current_team[k] == id;
    }
}

/// Choosing the current team keeps the saved team consistent.
pub proof fn lemma_set_keeps_wf(t: TeamDataView, id: u64, selected: bool)
    requires
        team_wf(t),
        member_set(t, id, selected) is Ok,
    ensures
        team_wf(member_set(t, id, selected)->Ok_0),
{
    let r = member_set(t, id, selected)->Ok_0;
    assert(r.entries == t.entries);
    assert(has_entry(t, id));
    assert forall|x: u64| has_entry(t, x) implies has_entry(r, x) by {
        let j = choose|j: int| 0 <= j < t.entries.len() && #[trigger] t.entries[j].id == x;
        assert(r.entries[j].id == x);
    }
    if selected {
        if !t.current_team.contains(id) {
            assert forall|k: int| 0 <= k < r.current_team.len() implies has_entry(
                r,
                #[trigger] r.current_team[k],
            ) by {
                if k < t.current_team.len() {
                    assert(r.current_team[k] == t.current_team[k]);
                }
            }
            assert forall|a: int, b: int| 0 <= a < b < r.current_team.len() implies #[trigger] r.current_team[a]
                != #[trigger] r.current_team[b] by {
                assert(r.current_team[a] == t.current_team[a]);
                if b == t.current_team.len() {
                    assert(r.current_team[b] == id);
                } else {
                    assert(r.current_team[b] == t.current_team[b]);
                }
            }
        }
    } else {
        lemma_ids_without(t.current_team, id);
        assert forall|k: int| 0 <= k < r.current_team.len() implies has_entry(
            r,
            #[trigger] r.current_team[k],
        ) by {
            let x = choose|x: int| 0 <= x < t.current_team.len() && t.current_team[x] == r.current_team[k];
            assert(has_entry(t, t.current_team[x]));
        }
    }
}

/// After choosing, the member is on the current team exactly when it was selected,
/// and choosing the same again changes nothing.
pub proof fn lemma_set_member_settles(t: TeamDataView, id: u64, selected: bool)
    requires
        member_set(t, id, selected) is Ok,
    ensures
        member_set(t, id, selected)->Ok_0.current_team.contains(id) == selected,
        member_set(member_set(t, id, selected)->Ok_0, id, selected) == member_set(t, id, selected),
{
    let r = member_set(t, id, selected)->Ok_0;
    assert(r.entries == t.entries);
    let j = choose|j: int| 0 <= j < t.entries.len() && #[trigger] t.entries[j].id == id;
    assert(r.entries[j].id == id);
    assert(has_entry(r, id));
    if selected {
        if !t.current_team.contains(id) {
            assert(r.current_team[r.current_team.len() - 1] == id);
        }
    } else {
        lemma_ids_without(t.current_team, id);
        if r.current_team.contains(id) {
            let k = choose|k: int| 0 <= k < r.current_team.len() && r.current_team[k] == id;
        }
        lemma_ids_without(r.current_team, id);
    }
}

/// Without a member of the id `id`, `entries_without` keeps all members.
pub proof fn lemma_entries_without_none(entries: Seq<TeamEntryView>, id: u64)
    requires
        forall|j: int| 0 <= j < entries.len() ==> (#[trigger] entries[j]).id != id,
    ensures
        entries_without(entries, id) == entries,
    decreases entries.len(),
{
    if entries.len() > 0 {
        let d = entries.drop_last();
        assert forall|j: int| 0 <= j < d.len() implies (#[trigger] d[j]).id != id by {
            assert(d[j] == entries[j]);
        }
        lemma_entries_without_none(d, id);
        assert(entries[entries.len() - 1] == entries.last());
        assert(entries =~= d.push(entries.last()));
    }
}

/// Removing a member that was just added gives back the team it was added to,
/// but for the next id, which stays used.
pub proof fn lemma_delete_undoes_add(t: TeamDataView, e: TeamEntryView)
    requires
        team_wf(t),
        t.next_entry_id < u64::MAX,
    ensures
        entry_deleted(saved(t, None, e), t.next_entry_id) == Ok::<TeamDataView, Seq<char>>(
            TeamDataView { next_entry_id: (t.next_entry_id + 1) as u64, ..t },
        ),
{
    let id = t.next_entry_id;
    let r = saved(t, None, e);
    assert(r.entries[t.entries.len() as int].id == id);
    assert(has_entry(r, id));
    assert forall|j: int| 0 <= j < t.entries.len() implies (#[trigger] t.entries[j]).id != id by {}
    lemma_entries_without_none(t.entries, id);
    assert(r.entries.drop_last() =~= t.entries);
    assert(entries_without(r.entries, id) == entries_without(t.entries, id));
    assert forall|k: int| 0 <= k < t.current_team.len() implies #[trigger] t.current_team[k] != id by {
        assert(has_entry(t, t.current_team[k]));
        let j = choose|j: int| 0 <= j < t.entries.len() && #[trigger] t.entries[j].id == t.current_team[k];
    }
    lemma_ids_without(t.current_team, id);
    if t.current_team.contains(id) {
        let k = choose|k: int| 0 <= k < t.current_team.len() && t.current_team[k] == id;
    }
}

/// Taking a member off the current team right after putting it on gives back the team.
pub proof fn lemma_deselect_undoes_select(t: TeamDataView, id: u64)
    requires
        member_set(t, id, true) is Ok,
        !t.current_team.contains(id),
    ensures
        member_set(member_set(t, id, true)->Ok_0, id, false) == Ok::<TeamDataView, Seq<char>>(t),
{
    let r = member_set(t, id, true)->Ok_0;
    assert(r.entries == t.entries);
    let j = choose|j: int| 0 <= j < t.entries.len() && #[trigger] t.entries[j].id == id;
    assert(r.entries[j].id == id);
    assert(r.current_team.drop_last() =~= t.current_team);
    assert(r.current_team.last() == id);
    lemma_ids_without(t.current_team, id);
    assert(ids_without(r.current_team, id) == ids_without(t.current_team, id));
    assert(TeamDataView { current_team: t.current_team, ..r } == t);
}

} // verus!
