//! The type matchup of a Pokemon: how each type fares against it, computed
//! from the damage relations of the Pokemon's own types.

use vstd::prelude::*;

use crate::model::{
    string_views, DamageRelations, Factor, MatchupEntry, PokemonInfo, PokemonMatchupDetails, TypeInfo,
};
use crate::text::{
    chars_of, compare_chars, lemma_name_less_irreflexive, lemma_name_less_transitive,
    lemma_name_less_total, name_less, NameOrder,
};

verus! {

/// How many times `t` occurs in `list`.
pub open spec fn occurrences(list: Seq<Seq<char>>, t: Seq<char>) -> int
    decreases list.len(),
{
    if list.len() == 0 {
        0
    } else {
        occurrences(list.drop_last(), t) + if list.last() == t {
            1int
        } else {
            0int
        }
    }
}

/// The multipliers of one type against a Pokemon, as a model: each is zero
/// when `*_zero` holds, and two raised to `*_exp` otherwise.
pub struct TypeFactors {
    pub attack_zero: bool,
    pub attack_exp: int,
    pub defense_zero: bool,
    pub defense_exp: int,
}

/// Multipliers of one, both ways.
pub open spec fn neutral_factors() -> TypeFactors {
    TypeFactors { attack_zero: false, attack_exp: 0, defense_zero: false, defense_exp: 0 }
}

/// Whether both multipliers are one.
pub open spec fn factors_neutral(f: TypeFactors) -> bool {
    !f.attack_zero && f.attack_exp == 0 && !f.defense_zero && f.defense_exp == 0
}

/// The multipliers `s` of the type `t` after one more of the Pokemon's types,
/// with the damage relations `r`: each listing of `t` as taking double (half)
/// damage doubles (halves) the attack multiplier, a listing as taking no damage
/// zeroes it, and likewise for the damage that `t` deals, with the defense multiplier.
pub open spec fn factors_after(s: TypeFactors, r: DamageRelations, t: Seq<char>) -> TypeFactors {
    TypeFactors {
        attack_zero: s.attack_zero || occurrences(string_views(r.attack_none@), t) > 0,
        attack_exp: s.attack_exp + occurrences(string_views(r.attack_double@), t) - occurrences(
            string_views(r.attack_half@),
            t,
        ),
        defense_zero: s.defense_zero || occurrences(string_views(r.defense_none@), t) > 0,
        defense_exp: s.defense_exp + occurrences(string_views(r.defense_double@), t) - occurrences(
            string_views(r.defense_half@),
            t,
        ),
    }
}

/// The multipliers of the type `t` against a Pokemon whose types have the damage relations `rels`.
pub open spec fn type_factors(rels: Seq<DamageRelations>, t: Seq<char>) -> TypeFactors
    decreases rels.len(),
{
    if rels.len() == 0 {
        neutral_factors()
    } else {
        factors_after(type_factors(rels.drop_last(), t), rels.last(), t)
    }
}

/// `occurrences` counts as a multiset does.
proof fn lemma_occurrences_count(list: Seq<Seq<char>>, t: Seq<char>)
    ensures
        occurrences(list, t) == list.to_multiset().count(t),
    decreases list.len(),
{
    broadcast use vstd::seq_lib::group_to_multiset_ensures, vstd::multiset::group_multiset_axioms;

    if list.len() == 0 {
        assert(list.to_multiset() =~= vstd::multiset::Multiset::empty());
    } else {
        let d = list.drop_last();
        lemma_occurrences_count(d, t);
        assert(d.push(list.last()) =~= list);
    }
}

/// The multipliers of a type against a Pokemon, one of the Pokemon's types at a
/// time: with no types both are one; each further type `r` doubles the attack
/// multiplier once for each time `r` lists the type as taking double damage,
/// halves it once for each time it lists it as taking half, and zeroes it when
/// it lists it as taking none; likewise for the defense multiplier with the
/// damage the type deals to `r`.
pub proof fn lemma_type_factors_step(rels: Seq<DamageRelations>, r: DamageRelations, t: Seq<char>)
    ensures
        type_factors(seq![], t) == (TypeFactors {
            attack_zero: false,
            attack_exp: 0,
            defense_zero: false,
            defense_exp: 0,
        }),
        type_factors(rels.push(r), t).attack_zero == (type_factors(rels, t).attack_zero
            || r.attack_none@.map_values(|s: String| s@).contains(t)),
        type_factors(rels.push(r), t).attack_exp == type_factors(rels, t).attack_exp
            + r.attack_double@.map_values(|s: String| s@).to_multiset().count(t)
            - r.attack_half@.map_values(|s: String| s@).to_multiset().count(t),
        type_factors(rels.push(r), t).defense_zero == (type_factors(rels, t).defense_zero
            || r.defense_none@.map_values(|s: String| s@).contains(t)),
        type_factors(rels.push(r), t).defense_exp == type_factors(rels, t).defense_exp
            + r.defense_double@.map_values(|s: String| s@).to_multiset().count(t)
            - r.defense_half@.map_values(|s: String| s@).to_multiset().count(t),
{
    broadcast use vstd::seq_lib::group_to_multiset_ensures;

    assert(rels.push(r).drop_last() =~= rels);
    assert(string_views(r.attack_none@) =~= r.attack_none@.map_values(|s: String| s@));
    assert(string_views(r.attack_double@) =~= r.attack_double@.map_values(|s: String| s@));
    assert(string_views(r.attack_half@) =~= r.attack_half@.map_values(|s: String| s@));
    assert(string_views(r.defense_none@) =~= r.defense_none@.map_values(|s: String| s@));
    assert(string_views(r.defense_double@) =~= r.defense_double@.map_values(|s: String| s@));
    assert(string_views(r.defense_half@) =~= r.defense_half@.map_values(|s: String| s@));
    lemma_occurrences_count(string_views(r.attack_none@), t);
    lemma_occurrences_count(string_views(r.attack_double@), t);
    lemma_occurrences_count(string_views(r.attack_half@), t);
    lemma_occurrences_count(string_views(r.defense_none@), t);
    lemma_occurrences_count(string_views(r.defense_double@), t);
    lemma_occurrences_count(string_views(r.defense_half@), t);
    assert(string_views(r.attack_none@).to_multiset().count(t) > 0 <==> string_views(
        r.attack_none@,
    ).contains(t));
    assert(string_views(r.defense_none@).to_multiset().count(t) > 0 <==> string_views(
        r.defense_none@,
    ).contains(t));
}

/// The damage relations of the types `infos`.
pub open spec fn relations_of(infos: Seq<TypeInfo>) -> Seq<DamageRelations> {
    infos.map_values(|i: TypeInfo| i.damage_relations)
}

/// How many names the damage relations `r` list, over all six lists.
pub open spec fn listed_in(r: DamageRelations) -> int {
    (r.attack_double@.len() + r.attack_half@.len() + r.attack_none@.len() + r.defense_double@.len()
        + r.defense_half@.len() + r.defense_none@.len()) as int
}

/// How many names the damage relations `rels` list, over all of them.
pub open spec fn listed_total(rels: Seq<DamageRelations>) -> int
    decreases rels.len(),
{
    if rels.len() == 0 {
        0
    } else {
        listed_total(rels.drop_last()) + listed_in(rels.last())
    }
}

/// Whether the multiplier `f` is one.
pub open spec fn factor_is_one(f: Factor) -> bool {
    !f.zero && f.exponent == 0
}

/// Whether the multiplier `f` is above one.
pub open spec fn factor_above_one(f: Factor) -> bool {
    !f.zero && f.exponent > 0
}

/// Whether the multiplier `f` is below one.
pub open spec fn factor_below_one(f: Factor) -> bool {
    f.zero || f.exponent < 0
}

/// Whether the entry favors the Pokemon: its attacks hit harder, or it takes less.
pub open spec fn favorable(e: MatchupEntry) -> bool {
    factor_above_one(e.attack) || factor_below_one(e.defense)
}

/// Whether the entry disfavors the Pokemon: its attacks hit softer, or it takes more.
pub open spec fn unfavorable(e: MatchupEntry) -> bool {
    factor_below_one(e.attack) || factor_above_one(e.defense)
}

/// Whether the entry's multipliers are the model `f`.
pub open spec fn entry_has_factors(e: MatchupEntry, f: TypeFactors) -> bool {
    &&& e.attack.zero == f.attack_zero
    &&& e.attack.exponent == f.attack_exp
    &&& e.defense.zero == f.defense_zero
    &&& e.defense.exponent == f.defense_exp
}

/// The names of the entries that are favorable and not unfavorable, in order.
pub open spec fn strong_names(entries: Seq<MatchupEntry>) -> Seq<Seq<char>>
    decreases entries.len(),
{
    if entries.len() == 0 {
        seq![]
    } else {
        let before = strong_names(entries.drop_last());
        let e = entries.last();
        if favorable(e) && !unfavorable(e) {
            before.push(e.name@)
        } else {
            before
        }
    }
}

/// The names of the entries that are unfavorable and not favorable, in order.
pub open spec fn weak_names(entries: Seq<MatchupEntry>) -> Seq<Seq<char>>
    decreases entries.len(),
{
    if entries.len() == 0 {
        seq![]
    } else {
        let before = weak_names(entries.drop_last());
        let e = entries.last();
        if unfavorable(e) && !favorable(e) {
            before.push(e.name@)
        } else {
            before
        }
    }
}

/// Whether the entries are ordered by name, each name before the next.
pub open spec fn sorted_by_name(entries: Seq<MatchupEntry>) -> bool {
    forall|i: int, j: int|
        0 <= i < j < entries.len() ==> name_less(#[trigger] entries[i].name@, #[trigger] entries[j].name@)
}

/// Whether `entries` are the matchup for the relations `rels`: ordered by name,
/// one for each type whose multipliers are not both one, with its multipliers.
pub open spec fn matchup_entries_for(entries: Seq<MatchupEntry>, rels: Seq<DamageRelations>) -> bool {
    &&& sorted_by_name(entries)
    &&& forall|i: int|
        0 <= i < entries.len() ==> !factors_neutral(type_factors(rels, (#[trigger] entries[i]).name@))
            && entry_has_factors(entries[i], type_factors(rels, entries[i].name@))
    &&& forall|t: Seq<char>|
        !factors_neutral(#[trigger] type_factors(rels, t)) ==> exists|i: int|
            0 <= i < entries.len() && entries[i].name@ == t
}

/// Whether `d` is the matchup of a Pokemon whose types have the records
/// `infos`: its entries are the matchup for their damage relations, and its
/// strong and weak lists name the strong and weak entries, in order.
pub open spec fn matchup_details_for(d: PokemonMatchupDetails, infos: Seq<TypeInfo>) -> bool {
    &&& matchup_entries_for(d.entries@, relations_of(infos))
    &&& string_views(d.strong_against@) == strong_names(d.entries@)
    &&& string_views(d.weak_against@) == weak_names(d.entries@)
}

/// Whether a multiplier is one (exactly; the multipliers are exact).
pub fn is_neutral(value: Factor) -> (r: bool)
    ensures
        r == factor_is_one(value),
        r == (!value.zero && value.exponent == 0),
{
    !value.zero && value.exponent == 0
}

/// Whether the entry favors the Pokemon.
pub fn is_favorable(entry: &MatchupEntry) -> (r: bool)
    ensures
        r == favorable(*entry),
        r == ((!entry.attack.zero && entry.attack.exponent > 0) || entry.defense.zero
            || entry.defense.exponent < 0),
{
    (!entry.attack.zero && entry.attack.exponent > 0) || (entry.defense.zero
        || entry.defense.exponent < 0)
}

/// Whether the entry disfavors the Pokemon.
pub fn is_unfavorable(entry: &MatchupEntry) -> (r: bool)
    ensures
        r == unfavorable(*entry),
        r == (entry.attack.zero || entry.attack.exponent < 0 || (!entry.defense.zero
            && entry.defense.exponent > 0)),
{
    (entry.attack.zero || entry.attack.exponent < 0) || (!entry.defense.zero
        && entry.defense.exponent > 0)
}

/// Which list of the damage relations a name comes from.
#[derive(Clone, Copy)]
enum RelationKind {
    AttackDouble,
    AttackHalf,
    AttackNone,
    DefenseDouble,
    DefenseHalf,
    DefenseNone,
}

/// The multipliers `s` after `n` listings of the kind `kind`.
spec fn add_listed(s: TypeFactors, n: int, kind: RelationKind) -> TypeFactors {
    match kind {
        RelationKind::AttackDouble => TypeFactors { attack_exp: s.attack_exp + n, ..s },
        RelationKind::AttackHalf => TypeFactors { attack_exp: s.attack_exp - n, ..s },
        RelationKind::AttackNone => TypeFactors { attack_zero: s.attack_zero || n > 0, ..s },
        RelationKind::DefenseDouble => TypeFactors { defense_exp: s.defense_exp + n, ..s },
        RelationKind::DefenseHalf => TypeFactors { defense_exp: s.defense_exp - n, ..s },
        RelationKind::DefenseNone => TypeFactors { defense_zero: s.defense_zero || n > 0, ..s },
    }
}

/// Whether both exponents of `s` lie within `b` of zero.
spec fn bounded(s: TypeFactors, b: int) -> bool {
    -b <= s.attack_exp <= b && -b <= s.defense_exp <= b
}

/// A type being accumulated: its name, the name's characters, and its multipliers so far.
struct Tally {
    name: String,
    key: Vec<char>,
    attack: Factor,
    defense: Factor,
}

spec fn tally_factors(e: Tally) -> TypeFactors {
    TypeFactors {
        attack_zero: e.attack.zero,
        attack_exp: e.attack.exponent as int,
        defense_zero: e.defense.zero,
        defense_exp: e.defense.exponent as int,
    }
}

/// Tallies keyed by their characters and ordered by name.
spec fn tallies_wf(acc: Seq<Tally>) -> bool {
    &&& forall|i: int| 0 <= i < acc.len() ==> (#[trigger] acc[i]).key@ == acc[i].name@
    &&& forall|i: int, j: int|
        0 <= i < j < acc.len() ==> name_less(#[trigger] acc[i].name@, #[trigger] acc[j].name@)
}

/// The multipliers that the tallies hold for `t` (one both ways where none is kept).
spec fn tally_state(acc: Seq<Tally>, t: Seq<char>) -> TypeFactors
    decreases acc.len(),
{
    if acc.len() == 0 {
        neutral_factors()
    } else if acc.last().name@ == t {
        tally_factors(acc.last())
    } else {
        tally_state(acc.drop_last(), t)
    }
}

proof fn lemma_tally_state_at(acc: Seq<Tally>, i: int)
    requires
        tallies_wf(acc),
        0 <= i < acc.len(),
    ensures
        tally_state(acc, acc[i].name@) == tally_factors(acc[i]),
    decreases acc.len(),
{
    if i < acc.len() - 1 {
        assert(name_less(acc[i].name@, acc[acc.len() - 1].name@));
        lemma_name_less_irreflexive(acc[i].name@);
        let d = acc.drop_last();
        assert(tallies_wf(d)) by {
            assert forall|a: int, b: int| 0 <= a < b < d.len() implies name_less(
                #[trigger] d[a].name@,
                #[trigger] d[b].name@,
            ) by {
                assert(d[a] == acc[a] && d[b] == acc[b]);
            }
            assert forall|a: int| 0 <= a < d.len() implies (#[trigger] d[a]).key@ == d[a].name@ by {
                assert(d[a] == acc[a]);
            }
        }
        assert(d[i] == acc[i]);
        lemma_tally_state_at(d, i);
    }
}

proof fn lemma_tally_state_absent(acc: Seq<Tally>, t: Seq<char>)
    requires
        forall|i: int| 0 <= i < acc.len() ==> (#[trigger] acc[i]).name@ != t,
    ensures
        tally_state(acc, t) == neutral_factors(),
    decreases acc.len(),
{
    if acc.len() > 0 {
        let d = acc.drop_last();
        assert forall|i: int| 0 <= i < d.len() implies (#[trigger] d[i]).name@ != t by {
            assert(d[i] == acc[i]);
        }
        assert(acc[acc.len() - 1] == acc.last());
        lemma_tally_state_absent(d, t);
    }
}

/// When two well-formed tally lists agree at every name but `name`, they hold the
/// same multipliers for every other name.
proof fn lemma_tally_state_same_elsewhere(a: Seq<Tally>, b: Seq<Tally>, name: Seq<char>, t: Seq<char>)
    requires
        tallies_wf(a),
        tallies_wf(b),
        t != name,
        forall|i: int|
            0 <= i < a.len() && (#[trigger] a[i]).name@ != name ==> exists|j: int|
                0 <= j < b.len() && b[j].name@ == a[i].name@ && tally_factors(b[j]) == tally_factors(
                    a[i],
                ),
        forall|j: int|
            0 <= j < b.len() && (#[trigger] b[j]).name@ != name ==> exists|i: int|
                0 <= i < a.len() && a[i].name@ == b[j].name@,
    ensures
        tally_state(a, t) == tally_state(b, t),
{
    if exists|i: int| 0 <= i < a.len() && a[i].name@ == t {
        let i = choose|i: int| 0 <= i < a.len() && a[i].name@ == t;
        let j = choose|j: int|
            0 <= j < b.len() && b[j].name@ == a[i].name@ && tally_factors(b[j]) == tally_factors(a[i]);
        lemma_tally_state_at(a, i);
        lemma_tally_state_at(b, j);
    } else {
        lemma_tally_state_absent(a, t);
        assert forall|j: int| 0 <= j < b.len() implies (#[trigger] b[j]).name@ != t by {
            if b[j].name@ == t {
                let i = choose|i: int| 0 <= i < a.len() && a[i].name@ == b[j].name@;
            }
        }
        lemma_tally_state_absent(b, t);
    }
}

/// The multipliers `s` after one listing of the kind `kind`.
spec fn bump_factors(s: TypeFactors, kind: RelationKind) -> TypeFactors {
    add_listed(s, 1, kind)
}

fn bump_tally(e: Tally, kind: RelationKind) -> (r: Tally)
    requires
        -i64::MAX < e.attack.exponent < i64::MAX,
        -i64::MAX < e.defense.exponent < i64::MAX,
    ensures
        r.name == e.name,
        r.key == e.key,
        tally_factors(r) == bump_factors(tally_factors(e), kind),
{
    let Tally { name, key, attack, defense } = e;
    match kind {
        RelationKind::AttackDouble => Tally {
            name,
            key,
            attack: Factor { zero: attack.zero, exponent: attack.exponent + 1 },
            defense,
        },
        RelationKind::AttackHalf => Tally {
            name,
            key,
            attack: Factor { zero: attack.zero, exponent: attack.exponent - 1 },
            defense,
        },
        RelationKind::AttackNone => Tally {
            name,
            key,
            attack: Factor { zero: true, exponent: attack.exponent },
            defense,
        },
        RelationKind::DefenseDouble => Tally {
            name,
            key,
            attack,
            defense: Factor { zero: defense.zero, exponent: defense.exponent + 1 },
        },
        RelationKind::DefenseHalf => Tally {
            name,
            key,
            attack,
            defense: Factor { zero: defense.zero, exponent: defense.exponent - 1 },
        },
        RelationKind::DefenseNone => Tally {
            name,
            key,
            attack,
            defense: Factor { zero: true, exponent: defense.exponent },
        },
    }
}

/// Replacing the tally at `i` by one of the same name changes no other name's multipliers.
proof fn lemma_replace_tally_elsewhere(old: Seq<Tally>, i: int, e: Tally, t: Seq<char>)
    requires
        tallies_wf(old),
        tallies_wf(old.update(i, e)),
        0 <= i < old.len(),
        e.name == old[i].name,
        t != e.name@,
    ensures
        tally_state(old.update(i, e), t) == tally_state(old, t),
{
    let na = old.update(i, e);
    assert forall|x: int|
        0 <= x < old.len() && (#[trigger] old[x]).name@ != e.name@ implies exists|y: int|
        0 <= y < na.len() && na[y].name@ == old[x].name@ && tally_factors(na[y]) == tally_factors(
            old[x],
        ) by {
        assert(na[x] == old[x]);
    }
    assert forall|y: int| 0 <= y < na.len() && (#[trigger] na[y]).name@ != e.name@ implies exists|x: int|
        0 <= x < old.len() && old[x].name@ == na[y].name@ by {
        assert(na[y] == old[y]);
    }
    lemma_tally_state_same_elsewhere(old, na, e.name@, t);
}

/// Replacing the tally at `i` by one of the same name changes only that name's multipliers.
proof fn lemma_replace_tally(old: Seq<Tally>, i: int, e: Tally)
    requires
        tallies_wf(old),
        0 <= i < old.len(),
        e.name == old[i].name,
        e.key == old[i].key,
    ensures
        tallies_wf(old.update(i, e)),
        tally_state(old.update(i, e), e.name@) == tally_factors(e),
        forall|t: Seq<char>|
            t != e.name@ ==> #[trigger] tally_state(old.update(i, e), t) == tally_state(old, t),
{
    let na = old.update(i, e);
    assert(tallies_wf(na)) by {
        assert forall|a: int, c: int| 0 <= a < c < na.len() implies name_less(
            #[trigger] na[a].name@,
            #[trigger] na[c].name@,
        ) by {
            assert(na[a].name@ == old[a].name@);
            assert(na[c].name@ == old[c].name@);
        }
    }
    lemma_tally_state_at(na, i);
    assert forall|t: Seq<char>| t != e.name@ implies #[trigger] tally_state(na, t) == tally_state(
        old,
        t,
    ) by {
        lemma_replace_tally_elsewhere(old, i, e, t);
    }
}

/// Inserting a tally at its place in the order keeps the tallies ordered.
proof fn lemma_insert_tally_wf(old: Seq<Tally>, i: int, e: Tally)
    requires
        tallies_wf(old),
        0 <= i <= old.len(),
        e.key@ == e.name@,
        forall|j: int| 0 <= j < i ==> name_less(#[trigger] old[j].name@, e.name@),
        i < old.len() ==> name_less(e.name@, old[i].name@),
    ensures
        tallies_wf(old.insert(i, e)),
{
    let name = e.name@;
    let na = old.insert(i, e);
    assert forall|a: int, c: int| 0 <= a < c < na.len() implies name_less(
        #[trigger] na[a].name@,
        #[trigger] na[c].name@,
    ) by {
        if c < i {
            assert(na[a] == old[a] && na[c] == old[c]);
        } else if c == i {
            assert(na[a] == old[a]);
        } else if a == i {
            assert(na[c] == old[c - 1]);
            if c - 1 > i {
                lemma_name_less_transitive(name, old[i].name@, old[c - 1].name@);
            }
        } else if a < i {
            assert(na[a] == old[a] && na[c] == old[c - 1]);
        } else {
            assert(na[a] == old[a - 1] && na[c] == old[c - 1]);
        }
    }
    assert forall|a: int| 0 <= a < na.len() implies (#[trigger] na[a]).key@ == na[a].name@ by {
        if a < i {
            assert(na[a] == old[a]);
        } else if a > i {
            assert(na[a] == old[a - 1]);
        }
    }
}

/// A name placed between the tallies at `i` is none of theirs.
proof fn lemma_insert_tally_new_name(old: Seq<Tally>, i: int, name: Seq<char>)
    requires
        tallies_wf(old),
        0 <= i <= old.len(),
        forall|j: int| 0 <= j < i ==> name_less(#[trigger] old[j].name@, name),
        i < old.len() ==> name_less(name, old[i].name@),
    ensures
        forall|j: int| 0 <= j < old.len() ==> (#[trigger] old[j]).name@ != name,
{
    assert forall|j: int| 0 <= j < old.len() implies (#[trigger] old[j]).name@ != name by {
        lemma_name_less_irreflexive(name);
        if j > i {
            lemma_name_less_transitive(name, old[i].name@, old[j].name@);
        }
    }
}

/// Inserting a tally changes no other name's multipliers.
proof fn lemma_insert_tally_elsewhere(old: Seq<Tally>, i: int, e: Tally, t: Seq<char>)
    requires
        tallies_wf(old),
        tallies_wf(old.insert(i, e)),
        0 <= i <= old.len(),
        t != e.name@,
    ensures
        tally_state(old.insert(i, e), t) == tally_state(old, t),
{
    let name = e.name@;
    let na = old.insert(i, e);
    assert forall|x: int| 0 <= x < old.len() && (#[trigger] old[x]).name@ != name implies exists|y: int|
        0 <= y < na.len() && na[y].name@ == old[x].name@ && tally_factors(na[y]) == tally_factors(
            old[x],
        ) by {
        if x < i {
            assert(na[x] == old[x]);
        } else {
            assert(na[x + 1] == old[x]);
        }
    }
    assert forall|y: int| 0 <= y < na.len() && (#[trigger] na[y]).name@ != name implies exists|x: int|
        0 <= x < old.len() && old[x].name@ == na[y].name@ by {
        if y < i {
            assert(na[y] == old[y]);
        } else if y > i {
            assert(na[y] == old[y - 1]);
        }
    }
    lemma_tally_state_same_elsewhere(old, na, name, t);
}

/// Inserting a tally for a name not yet kept, at its place in the order, adds that
/// name's multipliers and changes no other.
proof fn lemma_insert_tally(old: Seq<Tally>, i: int, e: Tally)
    requires
        tallies_wf(old),
        0 <= i <= old.len(),
        e.key@ == e.name@,
        forall|j: int| 0 <= j < i ==> name_less(#[trigger] old[j].name@, e.name@),
        i < old.len() ==> name_less(e.name@, old[i].name@),
    ensures
        tally_state(old, e.name@) == neutral_factors(),
        tallies_wf(old.insert(i, e)),
        tally_state(old.insert(i, e), e.name@) == tally_factors(e),
        forall|t: Seq<char>|
            t != e.name@ ==> #[trigger] tally_state(old.insert(i, e), t) == tally_state(old, t),
{
    lemma_insert_tally_new_name(old, i, e.name@);
    lemma_tally_state_absent(old, e.name@);
    lemma_insert_tally_wf(old, i, e);
    lemma_tally_state_at(old.insert(i, e), i);
    assert forall|t: Seq<char>| t != e.name@ implies #[trigger] tally_state(old.insert(i, e), t)
        == tally_state(old, t) by {
        lemma_insert_tally_elsewhere(old, i, e, t);
    }
}

/// Counts one listing of `name` of the kind `kind`.
fn bump(acc: &mut Vec<Tally>, name: &String, kind: RelationKind, Ghost(b): Ghost<int>)
    requires
        tallies_wf(old(acc)@),
        forall|t: Seq<char>| bounded(#[trigger] tally_state(old(acc)@, t), b),
        0 <= b < i64::MAX,
    ensures
        tallies_wf(final(acc)@),
        forall|t: Seq<char>|
            #[trigger] tally_state(final(acc)@, t) == if t == name@ {
                bump_factors(tally_state(old(acc)@, t), kind)
            } else {
                tally_state(old(acc)@, t)
            },
{
    let ghost old_acc = acc@;
    let key = chars_of(name.as_str());
    let n = acc.len();
    let mut i: usize = 0;
    while i < n && compare_chars(&acc[i].key, &key) == NameOrder::Less
        invariant
            acc@ == old_acc,
            tallies_wf(old_acc),
            n == acc@.len(),
            key@ == name@,
            i <= n,
            forall|j: int| 0 <= j < i ==> name_less(#[trigger] acc@[j].name@, name@),
        decreases n - i,
    {
        i += 1;
    }
    if i < n && compare_chars(&acc[i].key, &key) == NameOrder::Equal {
        let e = acc.remove(i);
        proof {
            lemma_tally_state_at(old_acc, i as int);
            assert(bounded(tally_state(old_acc, name@), b));
        }
        let e2 = bump_tally(e, kind);
        acc.insert(i, e2);
        proof {
            assert(acc@ =~= old_acc.update(i as int, e2));
            lemma_replace_tally(old_acc, i as int, e2);
        }
    } else {
        proof {
            if i < n {
                lemma_name_less_total(acc@[i as int].name@, name@);
            }
        }
        let fresh = Tally {
            name: name.clone(),
            key,
            attack: Factor { zero: false, exponent: 0 },
            defense: Factor { zero: false, exponent: 0 },
        };
        let e2 = bump_tally(fresh, kind);
        acc.insert(i, e2);
        proof {
            assert(acc@ =~= old_acc.insert(i as int, e2));
            lemma_insert_tally(old_acc, i as int, e2);
        }
    }
}

/// One more listing adds to a count of listings.
proof fn lemma_add_listed_step(s: TypeFactors, n: int, kind: RelationKind)
    requires
        n >= 0,
    ensures
        add_listed(s, n + 1, kind) == bump_factors(add_listed(s, n, kind), kind),
{
    match kind {
        RelationKind::AttackNone => {
            assert(add_listed(s, n + 1, kind).attack_zero == bump_factors(add_listed(s, n, kind), kind).attack_zero);
        },
        RelationKind::DefenseNone => {
            assert(add_listed(s, n + 1, kind).defense_zero == bump_factors(add_listed(s, n, kind), kind).defense_zero);
        },
        _ => {},
    }
}

/// Occurrences are never negative.
proof fn lemma_occurrences_nonneg(list: Seq<Seq<char>>, t: Seq<char>)
    ensures
        occurrences(list, t) >= 0,
    decreases list.len(),
{
    if list.len() > 0 {
        lemma_occurrences_nonneg(list.drop_last(), t);
    }
}

/// Counts every listing in `list` as of the kind `kind`.
fn apply_list(acc: &mut Vec<Tally>, list: &Vec<String>, kind: RelationKind, Ghost(b): Ghost<int>)
    requires
        tallies_wf(old(acc)@),
        forall|t: Seq<char>| bounded(#[trigger] tally_state(old(acc)@, t), b),
        0 <= b,
        b + list@.len() <= i64::MAX,
    ensures
        tallies_wf(final(acc)@),
        forall|t: Seq<char>|
            #[trigger] tally_state(final(acc)@, t) == add_listed(
                tally_state(old(acc)@, t),
                occurrences(string_views(list@), t),
                kind,
            ),
        forall|t: Seq<char>| bounded(#[trigger] tally_state(final(acc)@, t), b + list@.len()),
{
    let ghost start = acc@;
    let n = list.len();
    let mut j: usize = 0;
    while j < n
        invariant
            n == list@.len(),
            j <= n,
            0 <= b,
            b + n <= i64::MAX,
            tallies_wf(acc@),
            forall|t: Seq<char>|
                #[trigger] tally_state(acc@, t) == add_listed(
                    tally_state(start, t),
                    occurrences(string_views(list@).take(j as int), t),
                    kind,
                ),
            forall|t: Seq<char>| bounded(#[trigger] tally_state(acc@, t), b + j),
        decreases n - j,
    {
        let ghost before = acc@;
        bump(acc, &list[j], kind, Ghost(b + j));
        proof {
            let nm = string_views(list@);
            assert(nm.take(j + 1).drop_last() =~= nm.take(j as int));
            assert(nm.take(j + 1).last() == list@[j as int]@);
            assert forall|t: Seq<char>|
                #[trigger] tally_state(acc@, t) == add_listed(
                    tally_state(start, t),
                    occurrences(nm.take(j + 1), t),
                    kind,
                ) && bounded(tally_state(acc@, t), b + j + 1) by {
                assert(tally_state(before, t) == add_listed(
                    tally_state(start, t),
                    occurrences(nm.take(j as int), t),
                    kind,
                ));
                assert(bounded(tally_state(before, t), b + j));
                assert(occurrences(nm.take(j + 1), t) == occurrences(nm.take(j as int), t) + if list@[j as int]@
                    == t {
                    1int
                } else {
                    0int
                });
                if list@[j as int]@ == t {
                    lemma_occurrences_nonneg(nm.take(j as int), t);
                    lemma_add_listed_step(tally_state(start, t), occurrences(nm.take(j as int), t), kind);
                    assert(tally_state(acc@, t) == bump_factors(tally_state(before, t), kind));
                } else {
                    assert(tally_state(acc@, t) == tally_state(before, t));
                }
            }
        }
        j += 1;
    }
    assert(string_views(list@).take(n as int) =~= string_views(list@));
}

/// Counts every listing of the damage relations `r`.
fn apply_relations(acc: &mut Vec<Tally>, r: &DamageRelations, Ghost(b): Ghost<int>)
    requires
        tallies_wf(old(acc)@),
        forall|t: Seq<char>| bounded(#[trigger] tally_state(old(acc)@, t), b),
        0 <= b,
        b + listed_in(*r) <= i64::MAX,
    ensures
        tallies_wf(final(acc)@),
        forall|t: Seq<char>|
            #[trigger] tally_state(final(acc)@, t) == factors_after(tally_state(old(acc)@, t), *r, t),
        forall|t: Seq<char>| bounded(#[trigger] tally_state(final(acc)@, t), b + listed_in(*r)),
{
    let ghost start = acc@;
    let ghost b1 = b + r.attack_double@.len();
    let ghost b2 = b1 + r.attack_half@.len();
    let ghost b3 = b2 + r.attack_none@.len();
    let ghost b4 = b3 + r.defense_double@.len();
    let ghost b5 = b4 + r.defense_half@.len();
    apply_list(acc, &r.attack_double, RelationKind::AttackDouble, Ghost(b));
    let ghost s1 = acc@;
    apply_list(acc, &r.attack_half, RelationKind::AttackHalf, Ghost(b1));
    let ghost s2 = acc@;
    apply_list(acc, &r.attack_none, RelationKind::AttackNone, Ghost(b2));
    let ghost s3 = acc@;
    apply_list(acc, &r.defense_double, RelationKind::DefenseDouble, Ghost(b3));
    let ghost s4 = acc@;
    apply_list(acc, &r.defense_half, RelationKind::DefenseHalf, Ghost(b4));
    let ghost s5 = acc@;
    apply_list(acc, &r.defense_none, RelationKind::DefenseNone, Ghost(b5));
    assert forall|t: Seq<char>|
        #[trigger] tally_state(acc@, t) == factors_after(tally_state(start, t), *r, t) by {
        assert(tally_state(s1, t) == add_listed(
            tally_state(start, t),
            occurrences(string_views(r.attack_double@), t),
            RelationKind::AttackDouble,
        ));
        assert(tally_state(s2, t) == add_listed(
            tally_state(s1, t),
            occurrences(string_views(r.attack_half@), t),
            RelationKind::AttackHalf,
        ));
        assert(tally_state(s3, t) == add_listed(
            tally_state(s2, t),
            occurrences(string_views(r.attack_none@), t),
            RelationKind::AttackNone,
        ));
        assert(tally_state(s4, t) == add_listed(
            tally_state(s3, t),
            occurrences(string_views(r.defense_double@), t),
            RelationKind::DefenseDouble,
        ));
        assert(tally_state(s5, t) == add_listed(
            tally_state(s4, t),
            occurrences(string_views(r.defense_half@), t),
            RelationKind::DefenseHalf,
        ));
    }
}

/// The names listed by a prefix of the relations are no more than by all of them.
proof fn lemma_listed_total_prefix(rels: Seq<DamageRelations>, i: int)
    requires
        0 <= i <= rels.len(),
    ensures
        0 <= listed_total(rels.take(i)) <= listed_total(rels),
    decreases rels.len(),
{
    if i == rels.len() {
        assert(rels.take(i) =~= rels);
        lemma_listed_total_nonneg(rels);
    } else {
        assert(rels.drop_last().take(i) =~= rels.take(i));
        lemma_listed_total_prefix(rels.drop_last(), i);
    }
}

proof fn lemma_listed_total_nonneg(rels: Seq<DamageRelations>)
    ensures
        0 <= listed_total(rels),
    decreases rels.len(),
{
    if rels.len() > 0 {
        lemma_listed_total_nonneg(rels.drop_last());
    }
}

/// The tallies for the relations `rels`, ordered by name.
fn tally_relations(type_infos: &Vec<TypeInfo>) -> (acc: Vec<Tally>)
    requires
        listed_total(relations_of(type_infos@)) <= i64::MAX,
    ensures
        tallies_wf(acc@),
        forall|t: Seq<char>|
            #[trigger] tally_state(acc@, t) == type_factors(relations_of(type_infos@), t),
{
    let ghost rels = relations_of(type_infos@);
    let mut acc: Vec<Tally> = Vec::new();
    let n = type_infos.len();
    let mut i: usize = 0;
    while i < n
        invariant
            n == type_infos@.len(),
            rels == relations_of(type_infos@),
            listed_total(rels) <= i64::MAX,
            i <= n,
            tallies_wf(acc@),
            forall|t: Seq<char>| #[trigger] tally_state(acc@, t) == type_factors(rels.take(i as int), t),
            forall|t: Seq<char>| bounded(#[trigger] tally_state(acc@, t), listed_total(rels.take(i as int))),
        decreases n - i,
    {
        proof {
            assert(rels.take(i + 1).drop_last() =~= rels.take(i as int));
            assert(rels.take(i + 1).last() == type_infos@[i as int].damage_relations);
            lemma_listed_total_prefix(rels, i + 1);
            lemma_listed_total_prefix(rels, i as int);
        }
        apply_relations(&mut acc, &type_infos[i].damage_relations, Ghost(listed_total(rels.take(i as int))));
        i += 1;
    }
    assert(rels.take(n as int) =~= rels);
    acc
}

/// Whether `entries` are the non-neutral tallies of `acc` among its first `k`, in order:
/// entry `m` is tally `idx[m]`.
spec fn entries_from_tallies(entries: Seq<MatchupEntry>, acc: Seq<Tally>, idx: Seq<int>, k: int) -> bool {
    &&& entries.len() == idx.len()
    &&& forall|m: int| 0 <= m < idx.len() ==> 0 <= #[trigger] idx[m] < k
    &&& forall|m1: int, m2: int| 0 <= m1 < m2 < idx.len() ==> #[trigger] idx[m1] < #[trigger] idx[m2]
    &&& forall|m: int|
        0 <= m < idx.len() ==> {
            &&& (#[trigger] entries[m]).name@ == acc[idx[m]].name@
            &&& entries[m].attack == acc[idx[m]].attack
            &&& entries[m].defense == acc[idx[m]].defense
            &&& !(factor_is_one(entries[m].attack) && factor_is_one(entries[m].defense))
        }
    &&& forall|j: int|
        0 <= j < k && !(factor_is_one((#[trigger] acc[j]).attack) && factor_is_one(acc[j].defense))
            ==> exists|m: int| 0 <= m < idx.len() && idx[m] == j
}

/// The entries of the non-neutral tallies are ordered by name, carry the multipliers
/// of the model, and leave out no type whose multipliers are not both one.
proof fn lemma_entries_from_tallies(
    entries: Seq<MatchupEntry>,
    acc: Seq<Tally>,
    idx: Seq<int>,
    rels: Seq<DamageRelations>,
)
    requires
        tallies_wf(acc),
        entries_from_tallies(entries, acc, idx, acc.len() as int),
        forall|t: Seq<char>| #[trigger] tally_state(acc, t) == type_factors(rels, t),
    ensures
        sorted_by_name(entries),
        forall|i: int|
            0 <= i < entries.len() ==> !factors_neutral(type_factors(rels, (#[trigger] entries[i]).name@))
                && entry_has_factors(entries[i], type_factors(rels, entries[i].name@)),
        forall|t: Seq<char>|
            !factors_neutral(#[trigger] type_factors(rels, t)) ==> exists|i: int|
                0 <= i < entries.len() && entries[i].name@ == t,
{
    assert forall|i: int, j: int| 0 <= i < j < entries.len() implies name_less(
        #[trigger] entries[i].name@,
        #[trigger] entries[j].name@,
    ) by {
        assert(idx[i] < idx[j]);
    }
    assert forall|i: int| 0 <= i < entries.len() implies !factors_neutral(
        type_factors(rels, (#[trigger] entries[i]).name@),
    ) && entry_has_factors(entries[i], type_factors(rels, entries[i].name@)) by {
        lemma_tally_state_at(acc, idx[i]);
    }
    assert forall|t: Seq<char>| !factors_neutral(#[trigger] type_factors(rels, t)) implies exists|i: int|
        0 <= i < entries.len() && entries[i].name@ == t by {
        if forall|j: int| 0 <= j < acc.len() ==> (#[trigger] acc[j]).name@ != t {
            lemma_tally_state_absent(acc, t);
        }
        let j = choose|j: int| 0 <= j < acc.len() && (#[trigger] acc[j]).name@ == t;
        lemma_tally_state_at(acc, j);
        let m = choose|m: int| 0 <= m < idx.len() && idx[m] == j;
        assert(entries[m].name@ == t);
    }
}

/// Every name in `strong_names(es)` is the name of an entry of `es`.
proof fn lemma_strong_names_from(es: Seq<MatchupEntry>)
    ensures
        forall|m: int|
            0 <= m < strong_names(es).len() ==> exists|x: int|
                0 <= x < es.len() && es[x].name@ == #[trigger] strong_names(es)[m],
    decreases es.len(),
{
    if es.len() > 0 {
        let d = es.drop_last();
        lemma_strong_names_from(d);
        assert forall|m: int| 0 <= m < strong_names(es).len() implies exists|x: int|
            0 <= x < es.len() && es[x].name@ == #[trigger] strong_names(es)[m] by {
            if m < strong_names(d).len() {
                let x = choose|x: int| 0 <= x < d.len() && d[x].name@ == strong_names(d)[m];
                assert(es[x] == d[x]);
            } else {
                assert(es[es.len() - 1] == es.last());
            }
        }
    }
}

/// Every name in `weak_names(es)` is the name of an entry of `es`.
proof fn lemma_weak_names_from(es: Seq<MatchupEntry>)
    ensures
        forall|m: int|
            0 <= m < weak_names(es).len() ==> exists|x: int|
                0 <= x < es.len() && es[x].name@ == #[trigger] weak_names(es)[m],
    decreases es.len(),
{
    if es.len() > 0 {
        let d = es.drop_last();
        lemma_weak_names_from(d);
        assert forall|m: int| 0 <= m < weak_names(es).len() implies exists|x: int|
            0 <= x < es.len() && es[x].name@ == #[trigger] weak_names(es)[m] by {
            if m < weak_names(d).len() {
                let x = choose|x: int| 0 <= x < d.len() && d[x].name@ == weak_names(d)[m];
                assert(es[x] == d[x]);
            } else {
                assert(es[es.len() - 1] == es.last());
            }
        }
    }
}

/// A name is among the strong names of entries ordered by name exactly when
/// an entry with that name is favorable and not unfavorable; likewise for weak.
proof fn lemma_classified_names_contain(es: Seq<MatchupEntry>, i: int)
    requires
        sorted_by_name(es),
        0 <= i < es.len(),
    ensures
        strong_names(es).contains(es[i].name@) <==> (favorable(es[i]) && !unfavorable(es[i])),
        weak_names(es).contains(es[i].name@) <==> (unfavorable(es[i]) && !favorable(es[i])),
    decreases es.len(),
{
    let d = es.drop_last();
    let last = es.last();
    assert(es[es.len() - 1] == last);
    assert(sorted_by_name(d)) by {
        assert forall|a: int, b: int| 0 <= a < b < d.len() implies name_less(
            #[trigger] d[a].name@,
            #[trigger] d[b].name@,
        ) by {
            assert(d[a] == es[a] && d[b] == es[b]);
        }
    }
    lemma_strong_names_from(d);
    lemma_weak_names_from(d);
    if i < es.len() - 1 {
        assert(d[i] == es[i]);
        lemma_classified_names_contain(d, i);
        assert(name_less(es[i].name@, last.name@));
        lemma_name_less_irreflexive(last.name@);
        assert(es[i].name@ != last.name@);
        if strong_names(es).contains(es[i].name@) {
            let m = choose|m: int| 0 <= m < strong_names(es).len() && strong_names(es)[m] == es[i].name@;
            if m < strong_names(d).len() {
                assert(strong_names(es)[m] == strong_names(d)[m]);
            }
        }
        if strong_names(d).contains(es[i].name@) {
            let m = choose|m: int| 0 <= m < strong_names(d).len() && strong_names(d)[m] == es[i].name@;
            assert(strong_names(es)[m] == strong_names(d)[m]);
        }
        if weak_names(es).contains(es[i].name@) {
            let m = choose|m: int| 0 <= m < weak_names(es).len() && weak_names(es)[m] == es[i].name@;
            if m < weak_names(d).len() {
                assert(weak_names(es)[m] == weak_names(d)[m]);
            }
        }
        if weak_names(d).contains(es[i].name@) {
            let m = choose|m: int| 0 <= m < weak_names(d).len() && weak_names(d)[m] == es[i].name@;
            assert(weak_names(es)[m] == weak_names(d)[m]);
        }
    } else {
        assert(es[i] == last);
        lemma_name_less_irreflexive(last.name@);
        assert forall|x: int| 0 <= x < d.len() implies (#[trigger] d[x]).name@ != last.name@ by {
            assert(d[x] == es[x]);
            assert(name_less(es[x].name@, last.name@));
        }
        assert(!strong_names(d).contains(last.name@)) by {
            if strong_names(d).contains(last.name@) {
                let m = choose|m: int| 0 <= m < strong_names(d).len() && strong_names(d)[m] == last.name@;
                let x = choose|x: int| 0 <= x < d.len() && d[x].name@ == #[trigger] strong_names(d)[m];
            }
        }
        assert(!weak_names(d).contains(last.name@)) by {
            if weak_names(d).contains(last.name@) {
                let m = choose|m: int| 0 <= m < weak_names(d).len() && weak_names(d)[m] == last.name@;
                let x = choose|x: int| 0 <= x < d.len() && d[x].name@ == #[trigger] weak_names(d)[m];
            }
        }
        if favorable(last) && !unfavorable(last) {
            assert(strong_names(es)[strong_names(d).len() as int] == last.name@);
        }
        if unfavorable(last) && !favorable(last) {
            assert(weak_names(es)[weak_names(d).len() as int] == last.name@);
        }
        if strong_names(es).contains(last.name@) && !(favorable(last) && !unfavorable(last)) {
            assert(strong_names(es) == strong_names(d));
        }
        if weak_names(es).contains(last.name@) && !(unfavorable(last) && !favorable(last)) {
            assert(weak_names(es) == weak_names(d));
        }
    }
}

/// The entries of a Pokemon's matchup, read off the multipliers: each entry
/// carries the attack and defense multipliers of its type, and not both of them
/// are one; the entries come in strictly increasing name order; and every type
/// with a multiplier other than one has an entry.
pub proof fn lemma_entries_on_multipliers(d: PokemonMatchupDetails, infos: Seq<TypeInfo>)
    requires
        matchup_details_for(d, infos),
    ensures
        forall|i: int|
            0 <= i < d.entries@.len() ==> {
                let e = #[trigger] d.entries@[i];
                let f = type_factors(relations_of(infos), e.name@);
                &&& e.attack.zero == f.attack_zero && e.attack.exponent == f.attack_exp
                &&& e.defense.zero == f.defense_zero && e.defense.exponent == f.defense_exp
                &&& (e.attack.zero || e.attack.exponent != 0 || e.defense.zero || e.defense.exponent
                    != 0)
            },
        forall|i: int, j: int|
            0 <= i < j < d.entries@.len() ==> name_less(
                (#[trigger] d.entries@[i]).name@,
                (#[trigger] d.entries@[j]).name@,
            ),
        forall|t: Seq<char>|
            {
                let f = #[trigger] type_factors(relations_of(infos), t);
                f.attack_zero || f.attack_exp != 0 || f.defense_zero || f.defense_exp != 0
            } ==> exists|i: int| 0 <= i < d.entries@.len() && d.entries@[i].name@ == t,
{
}

/// Which types a Pokemon is strong and weak against, read off the multipliers:
/// a type is on the strong list exactly when the Pokemon's attacks hit it for
/// more than normal or it deals the Pokemon less than normal, while the
/// Pokemon's attacks hit it for at least normal and it deals the Pokemon at
/// most normal; it is on the weak list exactly when the reverse holds. Every
/// name on either list is a type of the matchup.
pub proof fn lemma_strong_weak_on_multipliers(d: PokemonMatchupDetails, infos: Seq<TypeInfo>)
    requires
        matchup_details_for(d, infos),
    ensures
        forall|i: int|
            0 <= i < d.entries@.len() ==> (d@.strong_against.contains(
                (#[trigger] d.entries@[i]).name@,
            ) <==> (((!d.entries@[i].attack.zero && d.entries@[i].attack.exponent > 0)
                || d.entries@[i].defense.zero || d.entries@[i].defense.exponent < 0)
                && (!d.entries@[i].attack.zero && d.entries@[i].attack.exponent >= 0)
                && (d.entries@[i].defense.zero || d.entries@[i].defense.exponent <= 0))),
        forall|i: int|
            0 <= i < d.entries@.len() ==> (d@.weak_against.contains(
                (#[trigger] d.entries@[i]).name@,
            ) <==> ((d.entries@[i].attack.zero || d.entries@[i].attack.exponent < 0 || (
            !d.entries@[i].defense.zero && d.entries@[i].defense.exponent > 0))
                && (d.entries@[i].attack.zero || d.entries@[i].attack.exponent <= 0)
                && (!d.entries@[i].defense.zero && d.entries@[i].defense.exponent >= 0))),
        forall|j: int|
            0 <= j < d@.strong_against.len() ==> exists|i: int|
                0 <= i < d.entries@.len() && (#[trigger] d.entries@[i]).name@
                    == #[trigger] d@.strong_against[j],
        forall|j: int|
            0 <= j < d@.weak_against.len() ==> exists|i: int|
                0 <= i < d.entries@.len() && (#[trigger] d.entries@[i]).name@
                    == #[trigger] d@.weak_against[j],
{
    let es = d.entries@;
    assert(d@.strong_against == strong_names(es));
    assert(d@.weak_against == weak_names(es));
    assert forall|i: int| 0 <= i < es.len() implies (d@.strong_against.contains(
        (#[trigger] es[i]).name@,
    ) <==> (favorable(es[i]) && !unfavorable(es[i]))) && (d@.weak_against.contains(es[i].name@)
        <==> (unfavorable(es[i]) && !favorable(es[i]))) by {
        lemma_classified_names_contain(es, i);
    }
    lemma_strong_names_from(es);
    lemma_weak_names_from(es);
    assert forall|j: int| 0 <= j < d@.strong_against.len() implies exists|i: int|
        0 <= i < es.len() && (#[trigger] es[i]).name@ == #[trigger] d@.strong_against[j] by {
        assert(d@.strong_against[j] == strong_names(es)[j]);
    }
    assert forall|j: int| 0 <= j < d@.weak_against.len() implies exists|i: int|
        0 <= i < es.len() && (#[trigger] es[i]).name@ == #[trigger] d@.weak_against[j] by {
        assert(d@.weak_against[j] == weak_names(es)[j]);
    }
}

/// In entries ordered by name, no type is both strong and weak.
pub proof fn lemma_strong_weak_disjoint(es: Seq<MatchupEntry>)
    requires
        sorted_by_name(es),
    ensures
        forall|i: int, j: int|
            0 <= i < strong_names(es).len() && 0 <= j < weak_names(es).len() ==> #[trigger] strong_names(es)[i]
                != #[trigger] weak_names(es)[j],
    decreases es.len(),
{
    if es.len() > 0 {
        let d = es.drop_last();
        let last = es.last();
        assert(sorted_by_name(d)) by {
            assert forall|i: int, j: int| 0 <= i < j < d.len() implies name_less(
                #[trigger] d[i].name@,
                #[trigger] d[j].name@,
            ) by {
                assert(d[i] == es[i] && d[j] == es[j]);
            }
        }
        lemma_strong_weak_disjoint(d);
        lemma_strong_names_from(d);
        lemma_weak_names_from(d);
        lemma_name_less_irreflexive(last.name@);
        assert forall|x: int| 0 <= x < d.len() implies (#[trigger] d[x]).name@ != last.name@ by {
            assert(d[x] == es[x]);
            assert(es[es.len() - 1] == last);
        }
        let sd = strong_names(d);
        let wd = weak_names(d);
        assert forall|i: int, j: int|
            0 <= i < strong_names(es).len() && 0 <= j < weak_names(es).len() implies #[trigger] strong_names(
                es,
            )[i] != #[trigger] weak_names(es)[j] by {
            if favorable(last) && !unfavorable(last) {
                assert(weak_names(es) == wd);
                if i < sd.len() {
                    assert(strong_names(es)[i] == sd[i]);
                } else {
                    assert(strong_names(es)[i] == last.name@);
                    let x = choose|x: int| 0 <= x < d.len() && d[x].name@ == wd[j];
                }
            } else if unfavorable(last) && !favorable(last) {
                assert(strong_names(es) == sd);
                if j < wd.len() {
                    assert(weak_names(es)[j] == wd[j]);
                } else {
                    assert(weak_names(es)[j] == last.name@);
                    let x = choose|x: int| 0 <= x < d.len() && d[x].name@ == sd[i];
                }
            } else {
                assert(strong_names(es) == sd);
                assert(weak_names(es) == wd);
            }
        }
    }
}

/// The names of the entries the Pokemon is strong against, and of those it is weak against.
fn classify_entries(entries: &Vec<MatchupEntry>) -> (r: (Vec<String>, Vec<String>))
    requires
        sorted_by_name(entries@),
    ensures
        string_views(r.0@) == strong_names(entries@),
        string_views(r.1@) == weak_names(entries@),
        forall|i: int, j: int|
            0 <= i < r.0@.len() && 0 <= j < r.1@.len() ==> #[trigger] r.0@[i]@ != #[trigger] r.1@[j]@,
{
    let mut strong_against: Vec<String> = Vec::new();
    let mut weak_against: Vec<String> = Vec::new();
    let m = entries.len();
    let mut k: usize = 0;
    assert(entries@.take(0) =~= seq![]);
    assert(string_views(strong_against@) =~= seq![]);
    assert(string_views(weak_against@) =~= seq![]);
    while k < m
        invariant
            m == entries@.len(),
            k <= m,
            string_views(strong_against@) == strong_names(entries@.take(k as int)),
            string_views(weak_against@) == weak_names(entries@.take(k as int)),
        decreases m - k,
    {
        let favorable = is_favorable(&entries[k]);
        let unfavorable = is_unfavorable(&entries[k]);
        proof {
            assert(entries@.take(k + 1).drop_last() =~= entries@.take(k as int));
            assert(entries@.take(k + 1).last() == entries@[k as int]);
        }
        if favorable && !unfavorable {
            let ghost before = strong_against@;
            strong_against.push(entries[k].name.clone());
            assert(string_views(strong_against@) =~= string_views(before).push(entries@[k as int].name@));
        } else if unfavorable && !favorable {
            let ghost before = weak_against@;
            weak_against.push(entries[k].name.clone());
            assert(string_views(weak_against@) =~= string_views(before).push(entries@[k as int].name@));
        }
        k += 1;
    }
    assert(entries@.take(m as int) =~= entries@);
    proof {
        lemma_strong_weak_disjoint(entries@);
        assert forall|i: int, j: int|
            0 <= i < strong_against@.len() && 0 <= j < weak_against@.len() implies #[trigger] strong_against@[i]@
                != #[trigger] weak_against@[j]@ by {
            assert(string_views(strong_against@)[i] == strong_against@[i]@);
            assert(string_views(weak_against@)[j] == weak_against@[j]@);
        }
    }
    (strong_against, weak_against)
}

/// The matchup of a Pokemon whose types are `type_infos`: the types whose
/// multipliers are not both one, ordered by name, and those it is strong
/// (favorable, not unfavorable) and weak (unfavorable, not favorable) against.
pub fn build_matchup_details(type_infos: &Vec<TypeInfo>) -> (r: PokemonMatchupDetails)
    requires
        listed_total(relations_of(type_infos@)) <= i64::MAX,
    ensures
        matchup_details_for(r, type_infos@),
        forall|i: int, j: int|
            0 <= i < r.strong_against@.len() && 0 <= j < r.weak_against@.len()
                ==> #[trigger] r.strong_against@[i]@ != #[trigger] r.weak_against@[j]@,
{
    let ghost rels = relations_of(type_infos@);
    let acc = tally_relations(type_infos);
    let n = acc.len();
    let mut entries: Vec<MatchupEntry> = Vec::new();
    let ghost mut idx: Seq<int> = seq![];
    let mut k: usize = 0;
    while k < n
        invariant
            n == acc@.len(),
            k <= n,
            entries_from_tallies(entries@, acc@, idx, k as int),
        decreases n - k,
    {
        let ghost old_idx = idx;
        let attack = acc[k].attack;
        let defense = acc[k].defense;
        if !(is_neutral(attack) && is_neutral(defense)) {
            let e = MatchupEntry { name: acc[k].name.clone(), attack, defense };
            entries.push(e);
            proof {
                idx = idx.push(k as int);
            }
        }
        proof {
            assert forall|m: int| 0 <= m < idx.len() implies 0 <= #[trigger] idx[m] < k + 1 by {}
            assert forall|j: int|
                0 <= j < k + 1 && !(factor_is_one((#[trigger] acc@[j]).attack) && factor_is_one(
                    acc@[j].defense,
                )) implies exists|m: int| 0 <= m < idx.len() && idx[m] == j by {
                if j == k {
                    assert(idx[idx.len() - 1] == j);
                } else {
                    let m = choose|m: int| 0 <= m < old_idx.len() && old_idx[m] == j;
                    assert(idx[m] == old_idx[m]);
                }
            }
        }
        k += 1;
    }
    proof {
        lemma_entries_from_tallies(entries@, acc@, idx, relations_of(type_infos@));
    }
    assert(forall|t: Seq<char>|
        !factors_neutral(#[trigger] type_factors(relations_of(type_infos@), t)) ==> exists|i: int|
            0 <= i < entries@.len() && entries@[i].name@ == t);
    let (strong_against, weak_against) = classify_entries(&entries);
    PokemonMatchupDetails { entries, strong_against, weak_against }
}

/// Whether every name of `e1` is a name of `e2`.
spec fn names_within(e1: Seq<MatchupEntry>, e2: Seq<MatchupEntry>) -> bool {
    forall|i: int| 0 <= i < e1.len() ==> has_name(e2, (#[trigger] e1[i]).name@)
}

/// Whether some entry of `es` has the name `n`.
spec fn has_name(es: Seq<MatchupEntry>, n: Seq<char>) -> bool {
    exists|j: int| 0 <= j < es.len() && (#[trigger] es[j]).name@ == n
}

/// Of two lists ordered by name that hold the same names, the last names agree.
proof fn lemma_sorted_same_last(e1: Seq<MatchupEntry>, e2: Seq<MatchupEntry>)
    requires
        sorted_by_name(e1),
        sorted_by_name(e2),
        names_within(e1, e2),
        names_within(e2, e1),
        e1.len() > 0,
        e2.len() > 0,
    ensures
        e1.last().name@ == e2.last().name@,
{
    let n1 = e1.len() - 1;
    let n2 = e2.len() - 1;
    let l1 = e1[n1].name@;
    let l2 = e2[n2].name@;
    assert(e1[n1] == e1[n1] && e2[n2] == e2[n2]);
    assert(has_name(e2, e1[n1].name@));
    assert(has_name(e1, e2[n2].name@));
    let j1 = choose|j: int| 0 <= j < e2.len() && (#[trigger] e2[j]).name@ == e1[n1].name@;
    let i2 = choose|i: int| 0 <= i < e1.len() && (#[trigger] e1[i]).name@ == e2[n2].name@;
    if l1 != l2 {
        assert(j1 != n2);
        assert(i2 != n1);
        assert(name_less(l1, l2));
        assert(name_less(l2, l1));
        lemma_name_less_transitive(l1, l2, l1);
        lemma_name_less_irreflexive(l1);
    }
}

/// Dropping the last entry of lists ordered by name with the same names keeps them ordered with the same names.
proof fn lemma_sorted_drop_last(e1: Seq<MatchupEntry>, e2: Seq<MatchupEntry>)
    requires
        sorted_by_name(e1),
        sorted_by_name(e2),
        names_within(e1, e2),
        e1.len() > 0,
        e2.len() > 0,
        e1.last().name@ == e2.last().name@,
    ensures
        sorted_by_name(e1.drop_last()),
        names_within(e1.drop_last(), e2.drop_last()),
{
    let d1 = e1.drop_last();
    let d2 = e2.drop_last();
    let n1 = e1.len() - 1;
    let n2 = e2.len() - 1;
    assert(e1[n1] == e1.last() && e2[n2] == e2.last());
    assert forall|a: int, b: int| 0 <= a < b < d1.len() implies name_less(
        #[trigger] d1[a].name@,
        #[trigger] d1[b].name@,
    ) by {
        assert(d1[a] == e1[a] && d1[b] == e1[b]);
    }
    assert forall|i: int| 0 <= i < d1.len() implies has_name(d2, (#[trigger] d1[i]).name@) by {
        assert(d1[i] == e1[i]);
        assert(0 <= i < e1.len());
        let j = choose|j: int| 0 <= j < e2.len() && (#[trigger] e2[j]).name@ == e1[i].name@;
        assert(name_less(e1[i].name@, e1[n1].name@));
        if j == n2 {
            lemma_name_less_irreflexive(e1[i].name@);
        }
        assert(d2[j] == e2[j]);
        assert(d2[j].name@ == d1[i].name@);
        assert(has_name(d2, d1[i].name@));
    }
    assert(names_within(d1, d2));
}

/// Two lists ordered by name that hold the same names hold them at the same places.
proof fn lemma_sorted_same_names(e1: Seq<MatchupEntry>, e2: Seq<MatchupEntry>)
    requires
        sorted_by_name(e1),
        sorted_by_name(e2),
        names_within(e1, e2),
        names_within(e2, e1),
    ensures
        e1.len() == e2.len(),
        forall|i: int| 0 <= i < e1.len() ==> (#[trigger] e1[i]).name@ == e2[i].name@,
    decreases e1.len() + e2.len(),
{
    if e1.len() > 0 && e2.len() > 0 {
        lemma_sorted_same_last(e1, e2);
        lemma_sorted_drop_last(e1, e2);
        lemma_sorted_drop_last(e2, e1);
        let d1 = e1.drop_last();
        let d2 = e2.drop_last();
        lemma_sorted_same_names(d1, d2);
        assert forall|i: int| 0 <= i < e1.len() implies (#[trigger] e1[i]).name@ == e2[i].name@ by {
            if i < e1.len() - 1 {
                assert(d1[i] == e1[i] && d2[i] == e2[i]);
            } else {
                assert(e1[i] == e1.last() && e2[i] == e2.last());
            }
        }
    } else if e1.len() > 0 {
        assert(has_name(e2, e1[0].name@));
    } else if e2.len() > 0 {
        assert(has_name(e1, e2[0].name@));
    }
}

/// Entries with the same names and multipliers, place by place, are strong and weak against the same types.
proof fn lemma_classification_congruent(e1: Seq<MatchupEntry>, e2: Seq<MatchupEntry>)
    requires
        e1.len() == e2.len(),
        forall|i: int|
            0 <= i < e1.len() ==> (#[trigger] e1[i]).name@ == e2[i].name@ && e1[i].attack == e2[i].attack
                && e1[i].defense == e2[i].defense,
    ensures
        strong_names(e1) == strong_names(e2),
        weak_names(e1) == weak_names(e2),
    decreases e1.len(),
{
    if e1.len() > 0 {
        let d1 = e1.drop_last();
        let d2 = e2.drop_last();
        assert forall|i: int| 0 <= i < d1.len() implies (#[trigger] d1[i]).name@ == d2[i].name@
            && d1[i].attack == d2[i].attack && d1[i].defense == d2[i].defense by {
            assert(d1[i] == e1[i] && d2[i] == e2[i]);
        }
        lemma_classification_congruent(d1, d2);
        assert(e1[e1.len() - 1] == e1.last() && e2[e2.len() - 1] == e2.last());
    }
}

/// Applying two of a Pokemon's types in either order gives the same multipliers.
proof fn lemma_factors_after_commute(
    s: TypeFactors,
    x: DamageRelations,
    y: DamageRelations,
    t: Seq<char>,
)
    ensures
        factors_after(factors_after(s, x, t), y, t) == factors_after(factors_after(s, y, t), x, t),
{
}

/// The multipliers come out the same when any one of the types is applied last.
proof fn lemma_type_factors_remove(rels: Seq<DamageRelations>, k: int, t: Seq<char>)
    requires
        0 <= k < rels.len(),
    ensures
        type_factors(rels, t) == factors_after(type_factors(rels.remove(k), t), rels[k], t),
    decreases rels.len(),
{
    if k == rels.len() - 1 {
        assert(rels.remove(k) =~= rels.drop_last());
    } else {
        let d = rels.drop_last();
        lemma_type_factors_remove(d, k, t);
        assert(rels.remove(k).drop_last() =~= d.remove(k));
        assert(rels.remove(k).last() == rels.last());
        assert(d[k] == rels[k]);
        lemma_factors_after_commute(type_factors(d.remove(k), t), rels[k], rels.last(), t);
    }
}

/// The multipliers of a type against a Pokemon do not depend on the order of
/// the Pokemon's type records.
proof fn lemma_type_factors_permutation(i1: Seq<TypeInfo>, i2: Seq<TypeInfo>, t: Seq<char>)
    requires
        i1.to_multiset() == i2.to_multiset(),
    ensures
        type_factors(relations_of(i1), t) == type_factors(relations_of(i2), t),
    decreases i1.len(),
{
    broadcast use vstd::seq_lib::group_to_multiset_ensures, vstd::multiset::group_multiset_axioms;

    if i1.len() == 0 {
        assert(i1.to_multiset().len() == 0);
        assert(i2.to_multiset().len() == i2.len());
        assert(relations_of(i1) =~= relations_of(i2));
    } else {
        let x = i1.last();
        let d1 = i1.drop_last();
        assert(d1.push(x) =~= i1);
        assert(i2.to_multiset().count(x) > 0);
        assert(i2.contains(x));
        let k = choose|k: int| 0 <= k < i2.len() && i2[k] == x;
        let d2 = i2.remove(k);
        assert(d2.to_multiset() =~= d1.to_multiset());
        lemma_type_factors_permutation(d1, d2, t);
        assert(relations_of(d1) =~= relations_of(i1).drop_last());
        assert(relations_of(d2) =~= relations_of(i2).remove(k));
        lemma_type_factors_remove(relations_of(i2), k, t);
    }
}

/// The matchup does not depend on the order in which a Pokemon's types are
/// listed: for the same type records in any order, the entries with their
/// multipliers, and the types it is strong and weak against, come out the same.
pub proof fn lemma_matchup_ignores_type_order(
    i1: Seq<TypeInfo>,
    i2: Seq<TypeInfo>,
    d1: PokemonMatchupDetails,
    d2: PokemonMatchupDetails,
)
    requires
        i1.to_multiset() == i2.to_multiset(),
        matchup_details_for(d1, i1),
        matchup_details_for(d2, i2),
    ensures
        d1@ == d2@,
{
    let r1 = relations_of(i1);
    let r2 = relations_of(i2);
    let e1 = d1.entries@;
    let e2 = d2.entries@;
    assert forall|t: Seq<char>| #[trigger] type_factors(r1, t) == type_factors(r2, t) by {
        lemma_type_factors_permutation(i1, i2, t);
    }
    assert(names_within(e1, e2)) by {
        assert forall|i: int| 0 <= i < e1.len() implies has_name(e2, (#[trigger] e1[i]).name@) by {
            assert(!factors_neutral(type_factors(r1, e1[i].name@)));
            assert(!factors_neutral(type_factors(r2, e1[i].name@)));
        }
    }
    assert(names_within(e2, e1)) by {
        assert forall|j: int| 0 <= j < e2.len() implies has_name(e1, (#[trigger] e2[j]).name@) by {
            assert(!factors_neutral(type_factors(r2, e2[j].name@)));
            assert(!factors_neutral(type_factors(r1, e2[j].name@)));
        }
    }
    lemma_sorted_same_names(e1, e2);
    assert forall|i: int| 0 <= i < e1.len() implies (#[trigger] e1[i]).name@ == e2[i].name@
        && e1[i].attack == e2[i].attack && e1[i].defense == e2[i].defense by {
        assert(entry_has_factors(e1[i], type_factors(r1, e1[i].name@)));
        assert(entry_has_factors(e2[i], type_factors(r2, e2[i].name@)));
    }
    lemma_classification_congruent(e1, e2);
    assert(d1@.entries =~= d2@.entries) by {
        assert forall|i: int| 0 <= i < e1.len() implies #[trigger] d1@.entries[i] == d2@.entries[i] by {
            assert(e1[i].name@ == e2[i].name@);
        }
    }
    assert(d1@.strong_against =~= d2@.strong_against);
    assert(d1@.weak_against =~= d2@.weak_against);
}

/// Whether the damage relations of the types `type_infos` list at most
/// `i64::MAX` names in all, so that the matchup's exponents can be counted.
pub fn relations_within_limit(type_infos: &Vec<TypeInfo>) -> (r: bool)
    ensures
        r == (listed_total(relations_of(type_infos@)) <= i64::MAX),
{
    let n = type_infos.len();
    let mut total: u128 = 0;
    let mut i: usize = 0;
    while i < n
        invariant
            n == type_infos@.len(),
            i <= n,
            total == listed_total(relations_of(type_infos@.take(i as int))),
            total <= i64::MAX,
        decreases n - i,
    {
        let d = &type_infos[i].damage_relations;
        let here: u128 = d.attack_double.len() as u128 + d.attack_half.len() as u128
            + d.attack_none.len() as u128 + d.defense_double.len() as u128
            + d.defense_half.len() as u128 + d.defense_none.len() as u128;
        assert(relations_of(type_infos@.take(i + 1)).drop_last() =~= relations_of(
            type_infos@.take(i as int),
        ));
        assert(relations_of(type_infos@.take(i + 1)).last() == type_infos@[i as int].damage_relations);
        if total + here > i64::MAX as u128 {
            proof {
                lemma_listed_total_prefix(relations_of(type_infos@), i + 1);
                assert(relations_of(type_infos@).take(i + 1) =~= relations_of(
                    type_infos@.take(i + 1),
                ));
            }
            return false;
        }
        total = total + here;
        i += 1;
    }
    assert(type_infos@.take(n as int) =~= type_infos@);
    true
}

/// Where the matchup shown for a Pokemon comes from.
pub enum MatchupSource {
    /// The matchup stored in the Pokemon's record.
    Stored(PokemonMatchupDetails),
    /// No matchup is stored yet: it is computed from the Pokemon's types.
    Compute,
}

/// The matchup stored in the record `pokemon`, or that none is stored yet.
pub fn matchup_source(pokemon: &PokemonInfo) -> (r: MatchupSource)
    ensures
        match pokemon.matchup_details {
            Some(d) => r matches MatchupSource::Stored(s) && s@ == d@,
            None => r is Compute,
        },
{
    match &pokemon.matchup_details {
        Some(d) => MatchupSource::Stored(d.clone()),
        None => MatchupSource::Compute,
    }
}

/// Computes the matchup of `pokemon` from the records `type_infos` of its
/// types, and stores it in the record: gives the record to write back, with the
/// matchup in it and the rest unchanged, and the matchup.
pub fn record_matchup(pokemon: PokemonInfo, type_infos: &Vec<TypeInfo>) -> (r: (PokemonInfo, PokemonMatchupDetails))
    requires
        listed_total(relations_of(type_infos@)) <= i64::MAX,
    ensures
        matchup_details_for(r.1, type_infos@),
        r.0.id == pokemon.id,
        r.0.name == pokemon.name,
        r.0.display_name == pokemon.display_name,
        r.0.image == pokemon.image,
        r.0.types == pokemon.types,
        r.0.matchup_details matches Some(d) && d@ == r.1@,
{
    let details = build_matchup_details(type_infos);
    let stored = details.clone();
    let record = PokemonInfo { matchup_details: Some(stored), ..pokemon };
    (record, details)
}

} // verus!
