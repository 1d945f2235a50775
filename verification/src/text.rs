//! Text handling: the character-level rules behind names, keys and labels.

use vstd::prelude::*;

verus! {

/// Whether `c` has the Unicode `White_Space` property, which `char::is_whitespace`
/// tests: U+0009 to U+000D, U+0020, U+0085, U+00A0, U+1680, U+2000 to U+200A,
/// U+2028, U+2029, U+202F, U+205F and U+3000.
pub open spec fn is_white_space(c: char) -> bool {
    let n = c as u32;
    ||| 0x09 <= n && n <= 0x0D
    ||| n == 0x20
    ||| n == 0x85
    ||| n == 0xA0
    ||| n == 0x1680
    ||| 0x2000 <= n && n <= 0x200A
    ||| n == 0x2028
    ||| n == 0x2029
    ||| n == 0x202F
    ||| n == 0x205F
    ||| n == 0x3000
}

/// Whether `c` is an ASCII character.
pub open spec fn is_ascii_char(c: char) -> bool {
    (c as u32) < 128
}

/// Whether every character of `s` is ASCII.
pub open spec fn is_ascii_text(s: Seq<char>) -> bool {
    forall|i: int| 0 <= i < s.len() ==> is_ascii_char(#[trigger] s[i])
}

/// `c` with an ASCII capital letter turned into its small letter.
pub open spec fn ascii_lower(c: char) -> char {
    if 65 <= (c as u32) && (c as u32) <= 90 {
        ((c as u32) + 32) as char
    } else {
        c
    }
}

/// `c` with an ASCII small letter turned into its capital letter.
pub open spec fn ascii_upper(c: char) -> char {
    if 97 <= (c as u32) && (c as u32) <= 122 {
        ((c as u32) - 32) as char
    } else {
        c
    }
}

/// What `char::to_uppercase` yields for `c`, in order.
pub uninterp spec fn uppercase_of(c: char) -> Seq<char>;

/// What `str::to_lowercase` returns for a string with the characters `s`.
pub uninterp spec fn lowercase_of(s: Seq<char>) -> Seq<char>;

/// The uppercase form of `c`: for an ASCII character its ASCII capital (other
/// characters unchanged), else what Unicode's case tables give.
pub open spec fn uppercase_char(c: char) -> Seq<char> {
    if is_ascii_char(c) {
        seq![ascii_upper(c)]
    } else {
        uppercase_of(c)
    }
}

/// The lowercase form of `s`: for ASCII text each capital letter turned into
/// its small letter, else what Unicode's case tables give.
pub open spec fn lowercased(s: Seq<char>) -> Seq<char> {
    if is_ascii_text(s) {
        s.map_values(|c: char| ascii_lower(c))
    } else {
        lowercase_of(s)
    }
}

/// Whether `c` has the Unicode `White_Space` property (what `char::is_whitespace` tests).
fn char_is_whitespace(c: char) -> (b: bool)
    ensures
        b == is_white_space(c),
{
    let n = c as u32;
    (0x09 <= n && n <= 0x0D) || n == 0x20 || n == 0x85 || n == 0xA0 || n == 0x1680 || (0x2000 <= n
        && n <= 0x200A) || n == 0x2028 || n == 0x2029 || n == 0x202F || n == 0x205F || n == 0x3000
}

/// `char::to_uppercase`, its characters collected into a `String`.
/// Stated: the result is the named mapping, and for an ASCII character it is
/// that character's ASCII uppercase (a small letter becomes its capital, any
/// other ASCII character stays). Left unsaid: what the other characters map to
/// (Unicode's case tables; some map to several characters).
#[verifier::external_body]
fn char_to_uppercase(c: char) -> (r: String)
    ensures
        r@ == uppercase_of(c),
        is_ascii_char(c) ==> r@ == seq![ascii_upper(c)],
{
    c.to_uppercase().collect()
}

/// `str::to_lowercase`. Stated: the result is the named mapping of the input's
/// characters; each character becomes one or more characters (the lowercase
/// mapping of a character, as `char::to_lowercase` documents it), so the result
/// is at least as long as the input; and for ASCII text it is the text with each
/// capital letter turned into its small letter (so the empty string stays
/// empty). Left unsaid: the mapping of other text (Unicode's case tables, with
/// the context rule for a final capital sigma).
#[verifier::external_body]
pub(crate) fn str_to_lowercase(s: &str) -> (r: String)
    ensures
        r@ == lowercase_of(s@),
        r@.len() >= s@.len(),
        is_ascii_text(s@) ==> r@ == s@.map_values(|c: char| ascii_lower(c)),
{
    s.to_lowercase()
}

/// `String::push`: appends one character.
#[verifier::external_body]
pub(crate) fn push_char(s: &mut String, c: char)
    ensures
        final(s)@ == old(s)@.push(c),
{
    s.push(c);
}

/// The characters of `s`, in order.
pub(crate) fn chars_of(s: &str) -> (v: Vec<char>)
    ensures
        v@ == s@,
{
    let n = s.unicode_len();
    let mut v: Vec<char> = Vec::new();
    let mut i: usize = 0;
    while i < n
        invariant
            n == s@.len(),
            i <= n,
            v@ == s@.take(i as int),
        decreases n - i,
    {
        let c = s.get_char(i);
        v.push(c);
        assert(s@.take(i + 1) =~= s@.take(i as int).push(c));
        i += 1;
    }
    assert(s@.take(n as int) =~= s@);
    v
}


/// The words of `s`: its maximal runs of characters without the `White_Space`
/// property, in order (what `split_whitespace` yields).
pub open spec fn words(s: Seq<char>) -> Seq<Seq<char>>
    decreases s.len(),
{
    if s.len() == 0 {
        seq![]
    } else {
        let before = words(s.drop_last());
        let c = s.last();
        if is_white_space(c) {
            before
        } else if s.len() >= 2 && !is_white_space(s[s.len() - 2]) {
            before.update(before.len() - 1, before.last().push(c))
        } else {
            before.push(seq![c])
        }
    }
}

/// `parts` joined into one sequence, with `sep` between each two of them.
pub open spec fn join_with(parts: Seq<Seq<char>>, sep: Seq<char>) -> Seq<char>
    decreases parts.len(),
{
    if parts.len() == 0 {
        seq![]
    } else if parts.len() == 1 {
        parts[0]
    } else {
        join_with(parts.drop_last(), sep) + sep + parts.last()
    }
}

/// `s` without its leading `White_Space` characters.
pub open spec fn trim_front(s: Seq<char>) -> Seq<char>
    decreases s.len(),
{
    if s.len() > 0 && is_white_space(s[0]) {
        trim_front(s.drop_first())
    } else {
        s
    }
}

/// `s` without its trailing `White_Space` characters.
pub open spec fn trim_back(s: Seq<char>) -> Seq<char>
    decreases s.len(),
{
    if s.len() > 0 && is_white_space(s.last()) {
        trim_back(s.drop_last())
    } else {
        s
    }
}

/// `s` without leading and trailing `White_Space` characters (what `str::trim` returns).
pub open spec fn trimmed(s: Seq<char>) -> Seq<char> {
    trim_back(trim_front(s))
}

/// A name as the team editor keys it: the words of `value`, joined by `-`, lowercased.
pub open spec fn normalized(value: Seq<char>) -> Seq<char> {
    lowercased(join_with(words(value), seq!['-']))
}

/// A name as it is displayed: the first character uppercased, the rest unchanged.
pub open spec fn capitalized(value: Seq<char>) -> Seq<char> {
    if value.len() == 0 {
        seq![]
    } else {
        uppercase_char(value[0]) + value.subrange(1, value.len() as int)
    }
}

/// Uppercases the first character of `value` and keeps the rest.
pub fn capitalize(value: &str) -> (r: String)
    ensures
        r@ == capitalized(value@),
        value@.len() == 0 ==> r@.len() == 0,
        value@.len() > 0 ==> r@ == uppercase_of(value@[0]) + value@.subrange(1, value@.len() as int),
        value@.len() > 0 && (value@[0] as u32) < 128 ==> r@.len() == value@.len() && r@.subrange(
            1,
            r@.len() as int,
        ) == value@.subrange(1, value@.len() as int) && r@[0] == if 97 <= (value@[0] as u32) && (
        value@[0] as u32) <= 122 {
            ((value@[0] as u32) - 32) as char
        } else {
            value@[0]
        },
{
    let n = value.unicode_len();
    if n == 0 {
        return String::new();
    }
    let first = value.get_char(0);
    let mut r = char_to_uppercase(first);
    let rest = value.substring_char(1, n);
    r.append(rest);
    r
}

/// Joining one more part onto a joined sequence.
proof fn lemma_join_push(parts: Seq<Seq<char>>, sep: Seq<char>, w: Seq<char>)
    ensures
        join_with(parts.push(w), sep) == if parts.len() == 0 {
            w
        } else {
            join_with(parts, sep) + sep + w
        },
{
    assert(parts.push(w).drop_last() =~= parts);
    if parts.len() == 0 {
        assert(parts.push(w)[0] == w);
    }
}

/// `s` read from the start: its characters without the `White_Space` ones, with
/// one `-` wherever a run of `White_Space` separates two of them.
pub open spec fn dashed(s: Seq<char>) -> Seq<char>
    decreases s.len(),
{
    if s.len() == 0 {
        seq![]
    } else {
        let before = dashed(s.drop_last());
        let c = s.last();
        if is_white_space(c) {
            before
        } else if s.len() >= 2 && !is_white_space(s[s.len() - 2]) {
            before.push(c)
        } else if before.len() == 0 {
            seq![c]
        } else {
            before.push('-').push(c)
        }
    }
}

/// Joining the words of a text with `-` collapses each run of `White_Space`
/// between two words into one `-` and drops it at both ends: the words of `s`
/// joined by `-` are `dashed(s)`.
pub proof fn lemma_words_joined(s: Seq<char>)
    ensures
        join_with(words(s), seq!['-']) == dashed(s),
    decreases s.len(),
{
    if s.len() > 0 {
        let t = s.drop_last();
        let c = s.last();
        lemma_words_joined(t);
        let p = words(t);
        lemma_words_nonempty_parts(t);
        if is_white_space(c) {
        } else if s.len() >= 2 && !is_white_space(s[s.len() - 2]) {
            assert(t.last() == s[s.len() - 2]);
            lemma_words_nonempty(t);
            let w = p.last().push(c);
            let q = p.update(p.len() - 1, w);
            if p.len() == 1 {
                assert(q[0] == w);
                assert(p[0] == p.last());
            } else {
                assert(q.drop_last() =~= p.drop_last());
                assert(q.last() == w);
                assert((join_with(p.drop_last(), seq!['-']) + seq!['-'] + p.last()).push(c)
                    =~= join_with(p.drop_last(), seq!['-']) + seq!['-'] + w);
            }
        } else {
            lemma_join_push(p, seq!['-'], seq![c]);
            if p.len() > 0 {
                lemma_join_len(p, seq!['-']);
                assert(p[p.len() - 1].len() > 0);
                assert(join_with(p, seq!['-']) + seq!['-'] + seq![c] =~= join_with(p, seq!['-']).push(
                    '-',
                ).push(c));
            } else {
                assert(join_with(p, seq!['-']) =~= Seq::<char>::empty());
            }
        }
    }
}

/// Collapses each run of whitespace in `value` to one `-`, drops it at both ends,
/// and lowercases the result.
pub fn normalize_name(value: &str) -> (r: String)
    ensures
        r@ == normalized(value@),
        r@.len() == 0 <==> is_blank(value@),
        r@ == lowercase_of(dashed(value@)),
        is_ascii_text(value@) ==> r@.len() == dashed(value@).len() && forall|k: int|
            0 <= k < r@.len() ==> #[trigger] r@[k] == if 65 <= (dashed(value@)[k] as u32) && (
            dashed(value@)[k] as u32) <= 90 {
                ((dashed(value@)[k] as u32) + 32) as char
            } else {
                dashed(value@)[k]
            },
{
    let cs = chars_of(value);
    let n = cs.len();
    let mut joined = String::new();
    let mut cur = String::new();
    let mut in_word = false;
    let mut any_done = false;
    let ghost mut done: Seq<Seq<char>> = seq![];
    let mut i: usize = 0;
    while i < n
        invariant
            n == cs@.len(),
            cs@ == value@,
            i <= n,
            joined@ == join_with(done, seq!['-']),
            in_word == (cur@.len() > 0),
            any_done == (done.len() > 0),
            in_word ==> words(value@.take(i as int)) == done.push(cur@) && i > 0
                && !is_white_space(value@[i - 1]),
            !in_word ==> words(value@.take(i as int)) == done && (i == 0 || is_white_space(
                value@[i - 1],
            )),
        decreases n - i,
    {
        let c = cs[i];
        let ghost s1 = value@.take(i + 1);
        assert(s1.drop_last() =~= value@.take(i as int));
        assert(s1.last() == c);
        if char_is_whitespace(c) {
            if in_word {
                proof {
                    lemma_join_push(done, seq!['-'], cur@);
                }
                if any_done {
                    push_char(&mut joined, '-');
                }
                joined.append(cur.as_str());
                proof {
                    done = done.push(cur@);
                }
                any_done = true;
                cur = String::new();
                in_word = false;
            }
        } else {
            if in_word {
                assert(s1[s1.len() - 2] == value@[i - 1]);
                let ghost before = done.push(cur@);
                push_char(&mut cur, c);
                assert(before.update(before.len() - 1, before.last().push(c)) =~= done.push(cur@));
            } else {
                if i > 0 {
                    assert(s1[s1.len() - 2] == value@[i - 1]);
                }
                push_char(&mut cur, c);
                assert(cur@ =~= seq![c]);
                in_word = true;
            }
        }
        i += 1;
    }
    assert(value@.take(n as int) =~= value@);
    if in_word {
        proof {
            lemma_join_push(done, seq!['-'], cur@);
        }
        if any_done {
            push_char(&mut joined, '-');
        }
        joined.append(cur.as_str());
        proof {
            done = done.push(cur@);
        }
        assert(joined@ =~= join_with(done, seq!['-']));
    }
    assert(words(value@) == done);
    proof {
        lemma_words_joined(value@);
        if is_ascii_text(value@) {
            lemma_words_plain(value@);
            lemma_join_plain(done, seq!['-']);
            assert(plain_char(seq!['-'][0]));
            assert(is_ascii_text(joined@)) by {
                assert forall|i: int| 0 <= i < joined@.len() implies is_ascii_char(#[trigger] joined@[i]) by {
                    assert(plain_char(joined@[i]));
                }
            }
        }
        lemma_words_blank(value@);
        lemma_words_nonempty_parts(value@);
        if done.len() > 0 {
            assert(done[done.len() - 1].len() > 0);
            lemma_join_len(done, seq!['-']);
        } else {
            assert(is_ascii_text(joined@));
        }
    }
    str_to_lowercase(joined.as_str())
}

/// Drops leading and trailing whitespace.
pub fn trim(value: &str) -> (r: String)
    ensures
        r@ == trimmed(value@),
        exists|i: int, j: int|
            {
                &&& 0 <= i <= j <= value@.len()
                &&& r@ == value@.subrange(i, j)
                &&& forall|k: int| 0 <= k < i ==> is_white_space(#[trigger] value@[k])
                &&& forall|k: int| j <= k < value@.len() ==> is_white_space(#[trigger] value@[k])
                &&& i < j ==> !is_white_space(value@[i]) && !is_white_space(value@[j - 1])
            },
{
    let cs = chars_of(value);
    let n = cs.len();
    let mut i: usize = 0;
    assert(value@.subrange(0, n as int) =~= value@);
    while i < n && char_is_whitespace(cs[i])
        invariant
            n == cs@.len(),
            cs@ == value@,
            i <= n,
            trim_front(value@) == trim_front(value@.subrange(i as int, n as int)),
            forall|k: int| 0 <= k < i ==> is_white_space(#[trigger] value@[k]),
        decreases n - i,
    {
        assert(value@.subrange(i as int, n as int).drop_first() =~= value@.subrange(i + 1, n as int));
        i += 1;
    }
    assert(trim_front(value@) == value@.subrange(i as int, n as int));
    let mut j: usize = n;
    while j > i && char_is_whitespace(cs[j - 1])
        invariant
            n == cs@.len(),
            cs@ == value@,
            i <= j <= n,
            trimmed(value@) == trim_back(value@.subrange(i as int, j as int)),
            forall|k: int| j <= k < n ==> is_white_space(#[trigger] value@[k]),
        decreases j,
    {
        assert(value@.subrange(i as int, j as int).drop_last() =~= value@.subrange(i as int, j - 1));
        j -= 1;
    }
    assert(trim_back(value@.subrange(i as int, j as int)) == value@.subrange(i as int, j as int));
    let r = String::from_str(value.substring_char(i, j));
    assert(i < j ==> !is_white_space(value@[i as int]) && !is_white_space(value@[j - 1]));
    assert(r@ == value@.subrange(i as int, j as int));
    r
}


/// Whether every character of `s` is `White_Space` (so also when `s` is empty).
pub open spec fn is_blank(s: Seq<char>) -> bool {
    forall|i: int| 0 <= i < s.len() ==> is_white_space(#[trigger] s[i])
}

/// Every word of a text has at least one character.
proof fn lemma_words_nonempty_parts(s: Seq<char>)
    ensures
        forall|i: int| 0 <= i < words(s).len() ==> (#[trigger] words(s)[i]).len() > 0,
    decreases s.len(),
{
    if s.len() > 0 {
        let t = s.drop_last();
        lemma_words_nonempty_parts(t);
        let before = words(t);
        let c = s.last();
        if is_white_space(c) {
        } else if s.len() >= 2 && !is_white_space(s[s.len() - 2]) {
            assert(t.last() == s[s.len() - 2]);
            lemma_words_nonempty(t);
            let after = before.update(before.len() - 1, before.last().push(c));
            assert forall|i: int| 0 <= i < after.len() implies (#[trigger] after[i]).len() > 0 by {
                if i < after.len() - 1 {
                    assert(after[i] == before[i]);
                }
            }
        } else {
            let after = before.push(seq![c]);
            assert forall|i: int| 0 <= i < after.len() implies (#[trigger] after[i]).len() > 0 by {
                if i < after.len() - 1 {
                    assert(after[i] == before[i]);
                }
            }
        }
    }
}

/// A text has no words exactly when all of it is `White_Space`.
proof fn lemma_words_blank(s: Seq<char>)
    ensures
        words(s).len() == 0 <==> is_blank(s),
    decreases s.len(),
{
    if s.len() > 0 {
        let t = s.drop_last();
        lemma_words_blank(t);
        if is_white_space(s.last()) {
            if is_blank(t) {
                assert forall|i: int| 0 <= i < s.len() implies is_white_space(#[trigger] s[i]) by {
                    if i < t.len() {
                        assert(s[i] == t[i]);
                    }
                }
            } else {
                let i = choose|i: int| 0 <= i < t.len() && !is_white_space(#[trigger] t[i]);
                assert(s[i] == t[i]);
            }
        } else {
            lemma_words_nonempty(s);
            assert(!is_white_space(s[s.len() - 1]));
        }
    }
}

/// A joined sequence is at least as long as its last part.
proof fn lemma_join_len(parts: Seq<Seq<char>>, sep: Seq<char>)
    requires
        parts.len() > 0,
    ensures
        join_with(parts, sep).len() >= parts[parts.len() - 1].len(),
{
}

/// A character that is ASCII and not `White_Space`.
spec fn plain_char(c: char) -> bool {
    is_ascii_char(c) && !is_white_space(c)
}

/// Whether every character of `s` is ASCII and not `White_Space`.
spec fn plain_text(s: Seq<char>) -> bool {
    forall|i: int| 0 <= i < s.len() ==> plain_char(#[trigger] s[i])
}

/// A text whose last character is not `White_Space` has at least one word.
proof fn lemma_words_nonempty(s: Seq<char>)
    requires
        s.len() > 0,
        !is_white_space(s.last()),
    ensures
        words(s).len() > 0,
    decreases s.len(),
{
    if s.len() >= 2 && !is_white_space(s[s.len() - 2]) {
        let t = s.drop_last();
        assert(t.last() == s[s.len() - 2]);
        lemma_words_nonempty(t);
    }
}

/// The words of ASCII text are made of ASCII characters that are not `White_Space`.
proof fn lemma_words_plain(s: Seq<char>)
    requires
        is_ascii_text(s),
    ensures
        forall|i: int| 0 <= i < words(s).len() ==> plain_text(#[trigger] words(s)[i]),
    decreases s.len(),
{
    if s.len() > 0 {
        let t = s.drop_last();
        assert forall|i: int| 0 <= i < t.len() implies is_ascii_char(#[trigger] t[i]) by {
            assert(t[i] == s[i]);
        }
        lemma_words_plain(t);
        let before = words(t);
        let c = s.last();
        assert(is_ascii_char(s[s.len() - 1]));
        if is_white_space(c) {
        } else if s.len() >= 2 && !is_white_space(s[s.len() - 2]) {
            assert(t.last() == s[s.len() - 2]);
            lemma_words_nonempty(t);
            let w = before.last().push(c);
            assert(plain_text(before[before.len() - 1]));
            assert forall|k: int| 0 <= k < w.len() implies plain_char(#[trigger] w[k]) by {
                if k < w.len() - 1 {
                    assert(w[k] == before[before.len() - 1][k]);
                }
            }
            let after = before.update(before.len() - 1, w);
            assert(words(s) == after);
            assert forall|i: int| 0 <= i < after.len() implies plain_text(#[trigger] after[i]) by {
                if i < after.len() - 1 {
                    assert(after[i] == before[i]);
                }
            }
        } else {
            let after = before.push(seq![c]);
            assert(words(s) == after);
            assert forall|i: int| 0 <= i < after.len() implies plain_text(#[trigger] after[i]) by {
                if i < after.len() - 1 {
                    assert(after[i] == before[i]);
                } else {
                    assert(after[i] == seq![c]);
                }
            }
        }
    }
}

/// Joining texts of plain characters with a plain separator gives a plain text.
proof fn lemma_join_plain(parts: Seq<Seq<char>>, sep: Seq<char>)
    requires
        forall|i: int| 0 <= i < parts.len() ==> plain_text(#[trigger] parts[i]),
        plain_text(sep),
    ensures
        plain_text(join_with(parts, sep)),
    decreases parts.len(),
{
    if parts.len() == 1 {
        assert(plain_text(parts[0]));
    } else if parts.len() > 1 {
        let d = parts.drop_last();
        assert forall|i: int| 0 <= i < d.len() implies plain_text(#[trigger] d[i]) by {
            assert(d[i] == parts[i]);
        }
        lemma_join_plain(d, sep);
        let a = join_with(d, sep);
        let l = parts[parts.len() - 1];
        assert(plain_text(l));
        let j = a + sep + l;
        assert forall|k: int| 0 <= k < j.len() implies plain_char(#[trigger] j[k]) by {
            if k < a.len() {
                assert(j[k] == a[k]);
            } else if k < a.len() + sep.len() {
                assert(j[k] == sep[k - a.len()]);
            } else {
                assert(j[k] == l[k - a.len() - sep.len()]);
            }
        }
    }
}

/// A text without `White_Space` is one word, or none when it is empty.
proof fn lemma_words_of_plain(s: Seq<char>)
    requires
        plain_text(s),
    ensures
        words(s) == if s.len() == 0 {
            Seq::<Seq<char>>::empty()
        } else {
            seq![s]
        },
    decreases s.len(),
{
    if s.len() > 0 {
        let t = s.drop_last();
        assert forall|i: int| 0 <= i < t.len() implies plain_char(#[trigger] t[i]) by {
            assert(t[i] == s[i]);
        }
        lemma_words_of_plain(t);
        assert(plain_char(s[s.len() - 1]));
        if s.len() >= 2 {
            assert(plain_char(s[s.len() - 2]));
            assert(t.push(s.last()) =~= s);
            assert(seq![t].update(0, t.push(s.last())) =~= seq![s]);
        } else {
            assert(s =~= seq![s.last()]);
        }
    }
}

/// Lowercasing plain ASCII text keeps it plain, and lowercasing it again changes nothing.
proof fn lemma_lower_plain(s: Seq<char>)
    requires
        plain_text(s),
    ensures
        plain_text(s.map_values(|c: char| ascii_lower(c))),
        s.map_values(|c: char| ascii_lower(c)).map_values(|c: char| ascii_lower(c)) == s.map_values(
            |c: char| ascii_lower(c),
        ),
{
    let l = s.map_values(|c: char| ascii_lower(c));
    assert forall|i: int| 0 <= i < l.len() implies plain_char(#[trigger] l[i]) by {
        assert(plain_char(s[i]));
        assert(l[i] == ascii_lower(s[i]));
    }
    assert(l.map_values(|c: char| ascii_lower(c)) =~= l);
}

/// Normalizing an ASCII name a second time changes nothing.
pub proof fn lemma_normalize_idempotent(value: Seq<char>)
    requires
        is_ascii_text(value),
    ensures
        normalized(normalized(value)) == normalized(value),
{
    let dash = seq!['-'];
    assert(plain_char(dash[0]));
    assert(plain_text(dash));
    lemma_words_plain(value);
    lemma_join_plain(words(value), dash);
    let j = join_with(words(value), dash);
    assert(is_ascii_text(j)) by {
        assert forall|i: int| 0 <= i < j.len() implies is_ascii_char(#[trigger] j[i]) by {
            assert(plain_char(j[i]));
        }
    }
    let n = j.map_values(|c: char| ascii_lower(c));
    assert(normalized(value) == n);
    lemma_lower_plain(j);
    lemma_words_of_plain(n);
    if n.len() == 0 {
        assert(join_with(words(n), dash) =~= n);
    } else {
        assert(join_with(words(n), dash) == n);
    }
    assert(is_ascii_text(n)) by {
        assert forall|i: int| 0 <= i < n.len() implies is_ascii_char(#[trigger] n[i]) by {
            assert(plain_char(n[i]));
        }
    }
}

/// Capitalizing ASCII text keeps it ASCII and keeps its length, and
/// capitalizing it a second time changes nothing.
pub proof fn lemma_capitalize_ascii(value: Seq<char>)
    requires
        is_ascii_text(value),
    ensures
        is_ascii_text(capitalized(value)),
        capitalized(value).len() == value.len(),
        capitalized(capitalized(value)) == capitalized(value),
{
    if value.len() > 0 {
        let c = capitalized(value);
        assert(is_ascii_char(value[0]));
        assert(c =~= seq![ascii_upper(value[0])] + value.subrange(1, value.len() as int));
        assert forall|i: int| 0 <= i < c.len() implies is_ascii_char(#[trigger] c[i]) by {
            if i > 0 {
                assert(c[i] == value[i]);
            }
        }
        assert(c[0] == ascii_upper(value[0]));
        assert(ascii_upper(ascii_upper(value[0])) == ascii_upper(value[0]));
        assert(capitalized(c) =~= c);
    }
}

/// The order of `str`'s `Ord`: by code points, position by position, a proper
/// prefix first (the byte order of UTF-8 is the code point order).
pub open spec fn name_less(a: Seq<char>, b: Seq<char>) -> bool
    decreases a.len(),
{
    if a.len() == 0 {
        b.len() > 0
    } else if b.len() == 0 {
        false
    } else if a[0] != b[0] {
        (a[0] as int) < (b[0] as int)
    } else {
        name_less(a.drop_first(), b.drop_first())
    }
}

/// The name order compares at the first place where two names differ: the
/// name with the smaller code point there comes first; when one name is a proper
/// prefix of the other, the shorter one comes first.
pub proof fn lemma_name_less_first_difference(a: Seq<char>, b: Seq<char>, k: int)
    requires
        0 <= k <= a.len(),
        k <= b.len(),
        a.take(k) == b.take(k),
    ensures
        k < a.len() && k < b.len() && a[k] != b[k] ==> (name_less(a, b) <==> (a[k] as int) < (
        b[k] as int)),
        k == a.len() && k < b.len() ==> name_less(a, b),
        k == b.len() ==> !name_less(a, b),
    decreases k,
{
    if k > 0 {
        assert(a[0] == a.take(k)[0] && b[0] == b.take(k)[0]);
        assert(a.drop_first().take(k - 1) =~= a.take(k).drop_first());
        assert(b.drop_first().take(k - 1) =~= b.take(k).drop_first());
        if k < a.len() {
            assert(a.drop_first()[k - 1] == a[k]);
        }
        if k < b.len() {
            assert(b.drop_first()[k - 1] == b[k]);
        }
        lemma_name_less_first_difference(a.drop_first(), b.drop_first(), k - 1);
    }
}

/// No name comes before itself.
pub proof fn lemma_name_less_irreflexive(a: Seq<char>)
    ensures
        !name_less(a, a),
    decreases a.len(),
{
    if a.len() > 0 {
        lemma_name_less_irreflexive(a.drop_first());
    }
}

/// The name order is transitive.
pub proof fn lemma_name_less_transitive(a: Seq<char>, b: Seq<char>, c: Seq<char>)
    requires
        name_less(a, b),
        name_less(b, c),
    ensures
        name_less(a, c),
    decreases a.len(),
{
    if a.len() > 0 && b.len() > 0 && c.len() > 0 {
        if a[0] == b[0] && b[0] == c[0] {
            lemma_name_less_transitive(a.drop_first(), b.drop_first(), c.drop_first());
        }
    }
}

/// Of two different names, one comes first.
pub proof fn lemma_name_less_total(a: Seq<char>, b: Seq<char>)
    requires
        a != b,
    ensures
        name_less(a, b) || name_less(b, a),
    decreases a.len(),
{
    if a.len() > 0 && b.len() > 0 && a[0] == b[0] {
        if a.drop_first() == b.drop_first() {
            assert(a =~= seq![a[0]] + a.drop_first());
            assert(b =~= seq![b[0]] + b.drop_first());
        }
        lemma_name_less_total(a.drop_first(), b.drop_first());
    } else if a.len() > 0 && b.len() > 0 {
        assert(a[0] as int != b[0] as int);
    } else if a.len() == 0 && b.len() == 0 {
        assert(a =~= b);
    }
}

/// Of two names, at most one comes before the other.
pub proof fn lemma_name_less_asymmetric(a: Seq<char>, b: Seq<char>)
    requires
        name_less(a, b),
    ensures
        !name_less(b, a),
{
    if name_less(b, a) {
        lemma_name_less_transitive(a, b, a);
        lemma_name_less_irreflexive(a);
    }
}

/// How two names compare.
#[derive(Debug, PartialEq, Eq, Structural, Clone, Copy)]
pub enum NameOrder {
    Less,
    Equal,
    Greater,
}

/// Compares two names, given by their characters, in the order of `name_less`.
pub fn compare_chars(a: &Vec<char>, b: &Vec<char>) -> (r: NameOrder)
    ensures
        r == NameOrder::Less <==> name_less(a@, b@),
        r == NameOrder::Equal <==> a@ == b@,
        r == NameOrder::Greater <==> name_less(b@, a@),
{
    let mut i: usize = 0;
    let na = a.len();
    let nb = b.len();
    assert(a@.skip(0) =~= a@);
    assert(b@.skip(0) =~= b@);
    while i < na && i < nb && a[i] == b[i]
        invariant
            na == a@.len(),
            nb == b@.len(),
            i <= na,
            i <= nb,
            a@.take(i as int) =~= b@.take(i as int),
            name_less(a@, b@) == name_less(a@.skip(i as int), b@.skip(i as int)),
            name_less(b@, a@) == name_less(b@.skip(i as int), a@.skip(i as int)),
        decreases na - i,
    {
        assert(a@.skip(i as int).drop_first() =~= a@.skip(i + 1));
        assert(b@.skip(i as int).drop_first() =~= b@.skip(i + 1));
        assert(a@.take(i + 1) =~= a@.take(i as int).push(a@[i as int]));
        assert(b@.take(i + 1) =~= b@.take(i as int).push(b@[i as int]));
        i += 1;
    }
    proof {
        lemma_name_less_irreflexive(a@);
    }
    if i == na && i == nb {
        assert(a@ =~= a@.take(i as int));
        assert(b@ =~= b@.take(i as int));
        NameOrder::Equal
    } else if i == na {
        assert(a@.skip(i as int).len() == 0);
        assert(a@ =~= a@.take(i as int));
        assert(a@ != b@);
        proof {
            lemma_name_less_asymmetric(a@, b@);
        }
        NameOrder::Less
    } else if i == nb {
        assert(b@.skip(i as int).len() == 0);
        assert(b@ =~= b@.take(i as int));
        assert(a@ != b@);
        proof {
            lemma_name_less_asymmetric(b@, a@);
        }
        NameOrder::Greater
    } else {
        assert(a@.skip(i as int)[0] == a@[i as int]);
        assert(b@.skip(i as int)[0] == b@[i as int]);
        assert(a@[i as int] != b@[i as int]);
        if a[i] < b[i] {
            proof {
                lemma_name_less_asymmetric(a@, b@);
            }
            NameOrder::Less
        } else {
            proof {
                lemma_name_less_asymmetric(b@, a@);
            }
            NameOrder::Greater
        }
    }
}

} // verus!
