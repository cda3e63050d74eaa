//! Character-sequence primitives: searching, trimming and splitting, each
//! stated over `Seq<char>` and implemented over `Vec<char>`.
use vstd::prelude::*;

verus! {

/// The characters with the Unicode `White_Space` property.
pub open spec fn is_ws(c: char) -> bool {
    ||| ('\u{9}' <= c && c <= '\u{d}')
    ||| c == ' '
    ||| c == '\u{85}'
    ||| c == '\u{a0}'
    ||| c == '\u{1680}'
    ||| ('\u{2000}' <= c && c <= '\u{200a}')
    ||| c == '\u{2028}'
    ||| c == '\u{2029}'
    ||| c == '\u{202f}'
    ||| c == '\u{205f}'
    ||| c == '\u{3000}'
}

/// A set of characters that a trim removes from the ends of a sequence.
#[derive(Clone, Copy, PartialEq, Eq, Debug)]
pub enum CharClass {
    Whitespace,
    Quote,
    Brace,
}

pub open spec fn in_class(c: char, k: CharClass) -> bool {
    match k {
        CharClass::Whitespace => is_ws(c),
        CharClass::Quote => c == '"',
        CharClass::Brace => c == '{' || c == '}',
    }
}

pub fn class_has(c: char, k: CharClass) -> (r: bool)
    ensures
        r == in_class(c, k),
{
    match k {
        CharClass::Whitespace => {
            ('\u{9}' <= c && c <= '\u{d}') || c == ' ' || c == '\u{85}' || c == '\u{a0}' || c
                == '\u{1680}' || ('\u{2000}' <= c && c <= '\u{200a}') || c == '\u{2028}' || c
                == '\u{2029}' || c == '\u{202f}' || c == '\u{205f}' || c == '\u{3000}'
        },
        CharClass::Quote => c == '"',
        CharClass::Brace => c == '{' || c == '}',
    }
}

/// `s` with every leading character of class `k` removed.
pub open spec fn trim_start_in(s: Seq<char>, k: CharClass) -> Seq<char>
    decreases s.len(),
{
    if s.len() > 0 && in_class(s[0], k) {
        trim_start_in(s.skip(1), k)
    } else {
        s
    }
}

/// `s` with every trailing character of class `k` removed.
pub open spec fn trim_end_in(s: Seq<char>, k: CharClass) -> Seq<char>
    decreases s.len(),
{
    if s.len() > 0 && in_class(s.last(), k) {
        trim_end_in(s.drop_last(), k)
    } else {
        s
    }
}

pub open spec fn trim_in(s: Seq<char>, k: CharClass) -> Seq<char> {
    trim_end_in(trim_start_in(s, k), k)
}

/// Surrounding whitespace removed.
pub open spec fn trim(s: Seq<char>) -> Seq<char> {
    trim_in(s, CharClass::Whitespace)
}

/// Surrounding double quotes removed, however many there are.
pub open spec fn unquote(s: Seq<char>) -> Seq<char> {
    trim_in(s, CharClass::Quote)
}

/// The text of a scalar value: surrounding whitespace, then surrounding quotes removed.
pub open spec fn scalar_text(s: Seq<char>) -> Seq<char> {
    unquote(trim(s))
}

/// `s` inside double quotes.
pub open spec fn quote(s: Seq<char>) -> Seq<char> {
    seq!['"'] + s + seq!['"']
}

/// Whether `pat` occurs in `s` at position `i`.
pub open spec fn occurs_at(s: Seq<char>, pat: Seq<char>, i: int) -> bool {
    0 <= i && i + pat.len() <= s.len() && s.subrange(i, i + pat.len()) == pat
}

/// The first position at or after `i` where `pat` occurs in `s`.
pub open spec fn find_from(s: Seq<char>, pat: Seq<char>, i: int) -> Option<int>
    decreases s.len() + 1 - i,
{
    if i < 0 || i + pat.len() > s.len() {
        None
    } else if occurs_at(s, pat, i) {
        Some(i)
    } else {
        find_from(s, pat, i + 1)
    }
}

/// The first position where `pat` occurs in `s`.
pub open spec fn find(s: Seq<char>, pat: Seq<char>) -> Option<int> {
    find_from(s, pat, 0)
}

/// The first position of the character `c` in `s`.
pub open spec fn find_char(s: Seq<char>, c: char) -> Option<int> {
    find(s, seq![c])
}

/// The first position in `s` holding one of the characters of `stops`.
pub open spec fn find_any_from(s: Seq<char>, stops: Seq<char>, i: int) -> Option<int>
    decreases s.len() - i,
{
    if i < 0 || i >= s.len() {
        None
    } else if stops.contains(s[i]) {
        Some(i)
    } else {
        find_any_from(s, stops, i + 1)
    }
}

pub open spec fn find_any(s: Seq<char>, stops: Seq<char>) -> Option<int> {
    find_any_from(s, stops, 0)
}

/// Where `s` ends when cut at the first of `stops`: that position, or the length.
pub open spec fn cut_at(s: Seq<char>, stops: Seq<char>) -> int {
    match find_any(s, stops) {
        Some(i) => i,
        None => s.len() as int,
    }
}

/// The last position of the character `c` in `s`.
pub open spec fn rfind_char(s: Seq<char>, c: char) -> Option<int>
    decreases s.len(),
{
    if s.len() == 0 {
        None
    } else if s.last() == c {
        Some(s.len() - 1)
    } else {
        rfind_char(s.drop_last(), c)
    }
}

/// The pieces of `s` between occurrences of `sep`; there is always at least one.
pub open spec fn split(s: Seq<char>, sep: char) -> Seq<Seq<char>>
    decreases s.len(),
{
    match find_char(s, sep) {
        Some(i) => if 0 <= i < s.len() {
            seq![s.take(i)] + split(s.skip(i + 1), sep)
        } else {
            seq![s]
        },
        None => seq![s],
    }
}

pub open spec fn opt_int(r: Option<usize>) -> Option<int> {
    match r {
        Some(i) => Some(i as int),
        None => None,
    }
}

pub proof fn lemma_find_from_bounds(s: Seq<char>, pat: Seq<char>, i: int)
    ensures
        find_from(s, pat, i) matches Some(j) ==> i <= j && occurs_at(s, pat, j),
    decreases s.len() + 1 - i,
{
    if i < 0 || i + pat.len() > s.len() {
    } else if occurs_at(s, pat, i) {
    } else {
        lemma_find_from_bounds(s, pat, i + 1);
    }
}

pub proof fn lemma_find_bounds(s: Seq<char>, pat: Seq<char>)
    ensures
        find(s, pat) matches Some(j) ==> 0 <= j && j + pat.len() <= s.len() && s.subrange(
            j,
            j + pat.len(),
        ) == pat,
{
    lemma_find_from_bounds(s, pat, 0);
}

pub proof fn lemma_find_any_from_bounds(s: Seq<char>, stops: Seq<char>, i: int)
    ensures
        find_any_from(s, stops, i) matches Some(j) ==> i <= j < s.len() && stops.contains(s[j]),
    decreases s.len() - i,
{
    if i < 0 || i >= s.len() {
    } else if stops.contains(s[i]) {
    } else {
        lemma_find_any_from_bounds(s, stops, i + 1);
    }
}

pub proof fn lemma_cut_at_bounds(s: Seq<char>, stops: Seq<char>)
    ensures
        0 <= cut_at(s, stops) <= s.len(),
{
    lemma_find_any_from_bounds(s, stops, 0);
}

pub proof fn lemma_rfind_bounds(s: Seq<char>, c: char)
    ensures
        rfind_char(s, c) matches Some(j) ==> 0 <= j < s.len() && s[j] == c,
    decreases s.len(),
{
    if s.len() == 0 {
    } else if s.last() == c {
    } else {
        lemma_rfind_bounds(s.drop_last(), c);
        assert(s.drop_last().len() == s.len() - 1);
    }
}

/// `find_from` gives the first occurrence at or after `i`.
pub proof fn lemma_find_from_first(s: Seq<char>, pat: Seq<char>, i: int)
    requires
        0 <= i,
    ensures
        find_from(s, pat, i) matches Some(k) ==> forall|j: int| i <= j < k ==> !occurs_at(s, pat, j),
        find_from(s, pat, i) is None ==> forall|j: int| i <= j ==> !occurs_at(s, pat, j),
    decreases s.len() + 1 - i,
{
    if i + pat.len() > s.len() {
    } else if occurs_at(s, pat, i) {
    } else {
        lemma_find_from_first(s, pat, i + 1);
    }
}

/// The first occurrence at or after `i` is found.
pub proof fn lemma_find_from_is(s: Seq<char>, pat: Seq<char>, i: int, k: int)
    requires
        0 <= i <= k,
        occurs_at(s, pat, k),
        forall|j: int| i <= j < k ==> !occurs_at(s, pat, j),
    ensures
        find_from(s, pat, i) == Some(k),
    decreases k - i,
{
    if i < k {
        lemma_find_from_is(s, pat, i + 1, k);
    }
}

/// With no occurrence at or after `i`, none is found.
pub proof fn lemma_find_from_none(s: Seq<char>, pat: Seq<char>, i: int)
    requires
        0 <= i,
        forall|j: int| i <= j ==> !occurs_at(s, pat, j),
    ensures
        find_from(s, pat, i) is None,
    decreases s.len() + 1 - i,
{
    if i + pat.len() <= s.len() {
        lemma_find_from_none(s, pat, i + 1);
    }
}

/// A one-character pattern occurs exactly where that character stands.
pub proof fn lemma_occurs_char(s: Seq<char>, c: char, j: int)
    ensures
        occurs_at(s, seq![c], j) == (0 <= j < s.len() && s[j] == c),
{
    if 0 <= j < s.len() {
        assert(s.subrange(j, j + 1) =~= seq![s[j]]);
        if s.subrange(j, j + 1) == seq![c] {
            assert(seq![s[j]][0] == seq![c][0]);
        }
    }
}

/// A character that `s` does not hold is not found in it.
pub proof fn lemma_find_char_absent(s: Seq<char>, c: char)
    requires
        !s.contains(c),
    ensures
        find_char(s, c) is None,
{
    assert forall|j: int| 0 <= j implies !occurs_at(s, seq![c], j) by {
        lemma_occurs_char(s, c, j);
        if 0 <= j < s.len() && s[j] == c {
            assert(s.contains(c));
        }
    }
    lemma_find_from_none(s, seq![c], 0);
}

/// In `x + [c] + y`, where `x` does not hold `c`, the first `c` follows `x`.
pub proof fn lemma_find_char_after(x: Seq<char>, c: char, y: Seq<char>)
    requires
        !x.contains(c),
    ensures
        find_char(x + seq![c] + y, c) == Some(x.len() as int),
{
    let s = x + seq![c] + y;
    lemma_occurs_char(s, c, x.len() as int);
    assert forall|j: int| 0 <= j < x.len() implies !occurs_at(s, seq![c], j) by {
        lemma_occurs_char(s, c, j);
        assert(s[j] == x[j]);
        if s[j] == c {
            assert(x.contains(c));
        }
    }
    lemma_find_from_is(s, seq![c], 0, x.len() as int);
}

/// The first occurrence in `s` stays the first once `y` is appended.
pub proof fn lemma_find_prefix(s: Seq<char>, y: Seq<char>, pat: Seq<char>)
    requires
        find(s, pat) is Some,
    ensures
        find(s + y, pat) == find(s, pat),
{
    let k = find(s, pat)->0;
    lemma_find_from_bounds(s, pat, 0);
    lemma_find_from_first(s, pat, 0);
    let t = s + y;
    assert(t.subrange(k, k + pat.len()) =~= s.subrange(k, k + pat.len()));
    assert forall|j: int| 0 <= j < k implies !occurs_at(t, pat, j) by {
        assert(!occurs_at(s, pat, j));
        assert(t.subrange(j, j + pat.len()) =~= s.subrange(j, j + pat.len()));
    }
    lemma_find_from_is(t, pat, 0, k);
}

/// The first occurrence stays the first in a prefix that still holds it.
pub proof fn lemma_find_in_take(s: Seq<char>, pat: Seq<char>, n: int)
    requires
        find(s, pat) matches Some(k) && k + pat.len() <= n <= s.len(),
    ensures
        find(s.take(n), pat) == find(s, pat),
{
    let k = find(s, pat)->0;
    lemma_find_from_bounds(s, pat, 0);
    lemma_find_from_first(s, pat, 0);
    let t = s.take(n);
    assert(t.subrange(k, k + pat.len()) =~= s.subrange(k, k + pat.len()));
    assert forall|j: int| 0 <= j < k implies !occurs_at(t, pat, j) by {
        assert(!occurs_at(s, pat, j));
        assert(t.subrange(j, j + pat.len()) =~= s.subrange(j, j + pat.len()));
    }
    lemma_find_from_is(t, pat, 0, k);
}

/// A character not found is not held.
pub proof fn lemma_find_char_none(s: Seq<char>, c: char)
    requires
        find_char(s, c) is None,
    ensures
        !s.contains(c),
{
    lemma_find_from_first(s, seq![c], 0);
    if s.contains(c) {
        let j = choose|j: int| 0 <= j < s.len() && s[j] == c;
        lemma_occurs_char(s, c, j);
    }
}

/// A pattern absent from `s` is absent from each of its suffixes.
pub proof fn lemma_find_none_skip(s: Seq<char>, pat: Seq<char>, m: int)
    requires
        find(s, pat) is None,
        0 <= m <= s.len(),
    ensures
        find(s.skip(m), pat) is None,
{
    lemma_find_from_first(s, pat, 0);
    let t = s.skip(m);
    assert forall|j: int| 0 <= j implies !occurs_at(t, pat, j) by {
        assert(!occurs_at(s, pat, m + j));
        if j + pat.len() <= t.len() {
            assert(t.subrange(j, j + pat.len()) =~= s.subrange(m + j, m + j + pat.len()));
        }
    }
    lemma_find_from_none(t, pat, 0);
}

/// A character that `s` holds is found in it.
pub proof fn lemma_find_char_present(s: Seq<char>, c: char)
    requires
        s.contains(c),
    ensures
        find_char(s, c) is Some,
{
    let j = choose|j: int| 0 <= j < s.len() && s[j] == c;
    lemma_occurs_char(s, c, j);
    lemma_find_from_first(s, seq![c], 0);
}

/// A piece with no separator in it splits into itself.
pub proof fn lemma_split_single(s: Seq<char>, sep: char)
    requires
        !s.contains(sep),
    ensures
        split(s, sep) == seq![s],
{
    lemma_find_char_absent(s, sep);
}

/// `x + [sep] + y` splits into `x`, then the pieces of `y`.
pub proof fn lemma_split_cons(x: Seq<char>, sep: char, y: Seq<char>)
    requires
        !x.contains(sep),
    ensures
        split(x + seq![sep] + y, sep) == seq![x] + split(y, sep),
{
    let s = x + seq![sep] + y;
    lemma_find_char_after(x, sep, y);
    assert(s.take(x.len() as int) =~= x);
    assert(s.skip(x.len() as int + 1) =~= y);
}

/// Where `s` neither starts nor ends with a quote, quoting and then unquoting gives `s` back.
pub proof fn lemma_unquote_quote(s: Seq<char>)
    requires
        s.len() == 0 || (s[0] != '"' && s.last() != '"'),
    ensures
        unquote(quote(s)) == s,
        trim(quote(s)) == quote(s),
        scalar_text(quote(s)) == s,
{
    let q = quote(s);
    let t = s + seq!['"'];
    assert(q.skip(1) =~= t);
    assert(q[0] == '"');
    assert(q.last() == '"');
    assert(trim_start_in(q, CharClass::Quote) == trim_start_in(t, CharClass::Quote));
    if s.len() == 0 {
        assert(t.skip(1) =~= Seq::<char>::empty());
        assert(trim_start_in(t, CharClass::Quote) == trim_start_in(t.skip(1), CharClass::Quote));
        assert(trim_start_in(Seq::<char>::empty(), CharClass::Quote) =~= Seq::<char>::empty());
        assert(trim_end_in(Seq::<char>::empty(), CharClass::Quote) =~= Seq::<char>::empty());
        assert(s =~= Seq::<char>::empty());
    } else {
        assert(t[0] == s[0]);
        assert(trim_start_in(t, CharClass::Quote) == t);
        assert(t.drop_last() =~= s);
        assert(t.last() == '"');
        assert(trim_end_in(t, CharClass::Quote) == trim_end_in(s, CharClass::Quote));
        assert(trim_end_in(s, CharClass::Quote) == s);
    }
    assert(unquote(q) == s);
    assert(trim_start_in(q, CharClass::Whitespace) == q);
    assert(trim_end_in(q, CharClass::Whitespace) == q);
    assert(trim(q) == q);
}

/// A quote added on both sides of `s` comes off again with the others.
pub proof fn lemma_unquote_wrapped(s: Seq<char>)
    ensures
        unquote(quote(s)) == unquote(s),
    decreases s.len(),
{
    let q = quote(s);
    assert(q.skip(1) =~= s + seq!['"']);
    lemma_trim_start_quote_suffix(s);
}

/// Leading quotes come off `s + ["]` as they come off `s`, the added one
/// coming off too where `s` is all quotes.
proof fn lemma_trim_start_quote_suffix(s: Seq<char>)
    ensures
        trim_end_in(trim_start_in(s + seq!['"'], CharClass::Quote), CharClass::Quote) == trim_end_in(
            trim_start_in(s, CharClass::Quote),
            CharClass::Quote,
        ),
    decreases s.len(),
{
    let t = s + seq!['"'];
    if s.len() == 0 {
        assert(t.skip(1) =~= Seq::<char>::empty());
        assert(trim_start_in(t, CharClass::Quote) == trim_start_in(t.skip(1), CharClass::Quote));
    } else if s[0] == '"' {
        assert(t.skip(1) =~= s.skip(1) + seq!['"']);
        lemma_trim_start_quote_suffix(s.skip(1));
    } else {
        assert(t[0] == s[0]);
        assert(t.drop_last() =~= s);
        assert(t.last() == '"');
    }
}

/// The first match from `i` on of a character of `stops` is found.
pub proof fn lemma_find_any_from_is(s: Seq<char>, stops: Seq<char>, i: int, k: int)
    requires
        0 <= i <= k < s.len(),
        stops.contains(s[k]),
        forall|j: int| i <= j < k ==> !stops.contains(s[j]),
    ensures
        find_any_from(s, stops, i) == Some(k),
    decreases k - i,
{
    if i < k {
        lemma_find_any_from_is(s, stops, i + 1, k);
    }
}

/// With none of `stops` from `i` on, nothing is found.
pub proof fn lemma_find_any_from_none(s: Seq<char>, stops: Seq<char>, i: int)
    requires
        0 <= i,
        forall|j: int| i <= j < s.len() ==> !stops.contains(s[j]),
    ensures
        find_any_from(s, stops, i) is None,
    decreases s.len() - i,
{
    if i < s.len() {
        lemma_find_any_from_none(s, stops, i + 1);
    }
}

/// `v + tail` is cut right after `v` where `v` holds none of `stops` and
/// `tail` is empty or starts with one of them.
pub proof fn lemma_cut_at_concat(v: Seq<char>, tail: Seq<char>, stops: Seq<char>)
    requires
        forall|j: int| 0 <= j < v.len() ==> !stops.contains(v[j]),
        tail.len() == 0 || stops.contains(tail[0]),
    ensures
        cut_at(v + tail, stops) == v.len(),
{
    let s = v + tail;
    assert forall|j: int| 0 <= j < v.len() implies !stops.contains(s[j]) by {
        assert(s[j] == v[j]);
    }
    if tail.len() == 0 {
        assert(s =~= v);
        lemma_find_any_from_none(s, stops, 0);
    } else {
        assert(s[v.len() as int] == tail[0]);
        lemma_find_any_from_is(s, stops, 0, v.len() as int);
    }
}

/// Where `s` is cut at a stop, that stop follows the cut.
pub proof fn lemma_cut_at_stop(s: Seq<char>, stops: Seq<char>)
    ensures
        0 <= cut_at(s, stops) <= s.len(),
        cut_at(s, stops) < s.len() ==> stops.contains(s[cut_at(s, stops)]),
{
    lemma_find_any_from_bounds(s, stops, 0);
}

/// What a leading trim leaves is a suffix, not starting with the class.
pub proof fn lemma_trim_start_shape(s: Seq<char>, k: CharClass)
    ensures
        trim_start_in(s, k).len() <= s.len(),
        trim_start_in(s, k) == s.skip(s.len() - trim_start_in(s, k).len()),
        trim_start_in(s, k).len() > 0 ==> !in_class(trim_start_in(s, k)[0], k),
    decreases s.len(),
{
    if s.len() > 0 && in_class(s[0], k) {
        lemma_trim_start_shape(s.skip(1), k);
        let r = trim_start_in(s.skip(1), k);
        assert(s.skip(1).skip(s.skip(1).len() - r.len()) =~= s.skip(s.len() - r.len()));
    } else {
        assert(s.skip(0) =~= s);
    }
}

/// What a trailing trim leaves is a prefix, not ending with the class.
pub proof fn lemma_trim_end_shape(s: Seq<char>, k: CharClass)
    ensures
        trim_end_in(s, k).len() <= s.len(),
        trim_end_in(s, k) == s.take(trim_end_in(s, k).len() as int),
        trim_end_in(s, k).len() > 0 ==> !in_class(trim_end_in(s, k).last(), k),
    decreases s.len(),
{
    if s.len() > 0 && in_class(s.last(), k) {
        lemma_trim_end_shape(s.drop_last(), k);
        let r = trim_end_in(s.drop_last(), k);
        assert(s.drop_last().take(r.len() as int) =~= s.take(r.len() as int));
    } else {
        assert(s.take(s.len() as int) =~= s);
    }
}

/// A scalar text neither starts nor ends with a quote.
pub proof fn lemma_scalar_ends(s: Seq<char>)
    ensures
        scalar_text(s).len() == 0 || (scalar_text(s)[0] != '"' && scalar_text(s).last() != '"'),
{
    let y = trim_start_in(trim(s), CharClass::Quote);
    lemma_trim_start_shape(trim(s), CharClass::Quote);
    lemma_trim_end_shape(y, CharClass::Quote);
    let r = trim_end_in(y, CharClass::Quote);
    if r.len() > 0 {
        assert(r[0] == y[0]);
    }
}

/// Where `pat` does not occur in `w + tail` before `tail` starts, the first
/// occurrence is the first in `tail`, shifted by the length of `w`.
pub proof fn lemma_find_shift(w: Seq<char>, tail: Seq<char>, pat: Seq<char>)
    requires
        forall|j: int| 0 <= j < w.len() ==> !occurs_at(w + tail, pat, j),
    ensures
        find(w + tail, pat) == (match find(tail, pat) {
            Some(k) => Some(w.len() + k),
            None => None,
        }),
{
    let x = w + tail;
    lemma_find_from_bounds(tail, pat, 0);
    lemma_find_from_first(tail, pat, 0);
    assert forall|j: int| w.len() <= j implies occurs_at(x, pat, j) == occurs_at(
        tail,
        pat,
        j - w.len(),
    ) by {
        if j + pat.len() <= x.len() {
            assert(x.subrange(j, j + pat.len()) =~= tail.subrange(
                j - w.len(),
                j - w.len() + pat.len(),
            ));
        }
    }
    match find(tail, pat) {
        Some(k) => {
            assert(occurs_at(tail, pat, k));
            assert(occurs_at(x, pat, w.len() + k));
            assert forall|j: int| 0 <= j < w.len() + k implies !occurs_at(x, pat, j) by {
                if j >= w.len() {
                    assert(!occurs_at(tail, pat, j - w.len()));
                }
            }
            lemma_find_from_is(x, pat, 0, w.len() + k);
        },
        None => {
            assert forall|j: int| 0 <= j implies !occurs_at(x, pat, j) by {
                if j >= w.len() {
                    assert(!occurs_at(tail, pat, j - w.len()));
                }
            }
            lemma_find_from_none(x, pat, 0);
        },
    }
}

/// Relies on `str::chars`: the characters of `s`, in order.
#[verifier::external_body]
pub(crate) fn chars_of(s: &str) -> (r: Vec<char>)
    ensures
        r@ == s@,
{
    s.chars().collect()
}

/// Relies on `String`'s `FromIterator<&char>`: the characters of `v`, in order, as a string.
#[verifier::external_body]
pub(crate) fn string_of(v: &Vec<char>) -> (r: String)
    ensures
        r@ == v@,
{
    v.iter().collect()
}

/// The characters of `s` from `a` up to `b`.
pub fn slice(s: &Vec<char>, a: usize, b: usize) -> (r: Vec<char>)
    requires
        a <= b <= s@.len(),
    ensures
        r@ == s@.subrange(a as int, b as int),
{
    let mut r: Vec<char> = Vec::new();
    let mut i: usize = a;
    while i < b
        invariant
            a <= i <= b <= s@.len(),
            r@ == s@.subrange(a as int, i as int),
        decreases b - i,
    {
        r.push(s[i]);
        i += 1;
    }
    r
}

/// Appends the characters of `src` to `dst`.
pub fn push_all(dst: &mut Vec<char>, src: &Vec<char>)
    ensures
        final(dst)@ == old(dst)@ + src@,
{
    let mut i: usize = 0;
    while i < src.len()
        invariant
            i <= src@.len(),
            dst@ == old(dst)@ + src@.take(i as int),
        decreases src.len() - i,
    {
        dst.push(src[i]);
        i += 1;
        assert(src@.take(i as int) =~= src@.take(i - 1) + seq![src@[i - 1]]);
    }
    assert(src@.take(src@.len() as int) =~= src@);
}

/// Whether `a` and `b` hold the same characters.
pub fn same_text(a: &Vec<char>, b: &Vec<char>) -> (r: bool)
    ensures
        r == (a@ == b@),
{
    if a.len() != b.len() {
        return false;
    }
    let mut i: usize = 0;
    while i < a.len()
        invariant
            i <= a@.len() == b@.len(),
            a@.take(i as int) == b@.take(i as int),
        decreases a.len() - i,
    {
        if a[i] != b[i] {
            assert(a@.take(i + 1)[i as int] != b@.take(i + 1)[i as int]);
            assert(a@ != b@) by {
                if a@ == b@ {
                    assert(a@.take(i + 1) == b@.take(i + 1));
                }
            }
            return false;
        }
        assert(a@.take(i + 1) =~= a@.take(i as int) + seq![a@[i as int]]);
        assert(b@.take(i + 1) =~= b@.take(i as int) + seq![b@[i as int]]);
        i += 1;
    }
    assert(a@ =~= a@.take(a@.len() as int));
    assert(b@ =~= b@.take(b@.len() as int));
    true
}

/// Whether `pat` occurs in `s` at position `i`.
pub fn matches_at(s: &Vec<char>, pat: &Vec<char>, i: usize) -> (r: bool)
    ensures
        r == occurs_at(s@, pat@, i as int),
{
    if i > s.len() || pat.len() > s.len() - i {
        return false;
    }
    let n = s.len();
    let mut j: usize = 0;
    while j < pat.len()
        invariant
            n == s@.len(),
            i + pat@.len() <= s@.len(),
            j <= pat@.len(),
            forall|k: int| 0 <= k < j ==> s@[i + k] == pat@[k],
        decreases pat.len() - j,
    {
        assert(i + j < s@.len());
        if s[i + j] != pat[j] {
            assert(s@.subrange(i as int, i + pat@.len())[j as int] != pat@[j as int]);
            return false;
        }
        j += 1;
    }
    assert(s@.subrange(i as int, i + pat@.len()) =~= pat@);
    true
}

/// The first position where `pat` occurs in `s`.
pub fn find_text(s: &Vec<char>, pat: &Vec<char>) -> (r: Option<usize>)
    ensures
        opt_int(r) == find(s@, pat@),
{
    if pat.len() > s.len() {
        return None;
    }
    if pat.len() == 0 {
        assert(s@.subrange(0, 0) =~= pat@);
        return Some(0);
    }
    let n = s.len();
    let mut i: usize = 0;
    while i <= s.len() - pat.len()
        invariant
            n == s@.len(),
            1 <= pat@.len() <= s@.len(),
            i <= s@.len() - pat@.len() + 1,
            find(s@, pat@) == find_from(s@, pat@, i as int),
        decreases s.len() - pat.len() + 1 - i,
    {
        if matches_at(s, pat, i) {
            return Some(i);
        }
        i += 1;
    }
    None
}

/// The first position of `c` in `s`.
pub fn find_ch(s: &Vec<char>, c: char) -> (r: Option<usize>)
    ensures
        opt_int(r) == find_char(s@, c),
{
    let pat = vec![c];
    assert(pat@ =~= seq![c]);
    find_text(s, &pat)
}

/// The first position in `s` holding one of `stops`.
pub fn find_any_of(s: &Vec<char>, stops: &Vec<char>) -> (r: Option<usize>)
    ensures
        opt_int(r) == find_any(s@, stops@),
{
    let mut i: usize = 0;
    while i < s.len()
        invariant
            i <= s@.len(),
            find_any(s@, stops@) == find_any_from(s@, stops@, i as int),
        decreases s.len() - i,
    {
        let mut j: usize = 0;
        let mut hit = false;
        while j < stops.len()
            invariant
                i < s@.len(),
                j <= stops@.len(),
                hit == (exists|k: int| 0 <= k < j && stops@[k] == s@[i as int]),
            decreases stops.len() - j,
        {
            if stops[j] == s[i] {
                hit = true;
            }
            j += 1;
        }
        if hit {
            return Some(i);
        }
        assert(!stops@.contains(s@[i as int]));
        i += 1;
    }
    None
}

/// Where `s` ends when cut at the first of `stops`.
pub fn cut_pos(s: &Vec<char>, stops: &Vec<char>) -> (r: usize)
    ensures
        r == cut_at(s@, stops@),
        r <= s@.len(),
{
    proof {
        lemma_cut_at_bounds(s@, stops@);
    }
    match find_any_of(s, stops) {
        Some(i) => i,
        None => s.len(),
    }
}

/// The last position of `c` in `s`.
pub fn rfind_ch(s: &Vec<char>, c: char) -> (r: Option<usize>)
    ensures
        opt_int(r) == rfind_char(s@, c),
{
    let mut n: usize = s.len();
    assert(s@.take(n as int) =~= s@);
    while n > 0
        invariant
            n <= s@.len(),
            rfind_char(s@, c) == rfind_char(s@.take(n as int), c),
        decreases n,
    {
        assert(s@.take(n as int).drop_last() =~= s@.take(n - 1));
        if s[n - 1] == c {
            return Some(n - 1);
        }
        n -= 1;
    }
    None
}

/// `s` with leading and trailing characters of class `k` removed.
pub fn trim_class(s: &Vec<char>, k: CharClass) -> (r: Vec<char>)
    ensures
        r@ == trim_in(s@, k),
{
    let mut a: usize = 0;
    assert(s@.skip(0) =~= s@);
    while a < s.len() && class_has(s[a], k)
        invariant
            a <= s@.len(),
            trim_start_in(s@, k) == trim_start_in(s@.skip(a as int), k),
        decreases s.len() - a,
    {
        assert(s@.skip(a as int).skip(1) =~= s@.skip(a + 1));
        a += 1;
    }
    let mut b: usize = s.len();
    assert(s@.skip(a as int) =~= s@.subrange(a as int, b as int));
    while b > a && class_has(s[b - 1], k)
        invariant
            a <= b <= s@.len(),
            trim_end_in(s@.skip(a as int), k) == trim_end_in(s@.subrange(a as int, b as int), k),
        decreases b - a,
    {
        assert(s@.subrange(a as int, b as int).drop_last() =~= s@.subrange(a as int, b - 1));
        b -= 1;
    }
    slice(s, a, b)
}

/// `s` with leading whitespace removed.
pub fn trim_start_ws(s: &Vec<char>) -> (r: Vec<char>)
    ensures
        r@ == trim_start_in(s@, CharClass::Whitespace),
        r@.len() <= s@.len(),
        r@ == s@.skip(s@.len() - r@.len()),
{
    let mut a: usize = 0;
    assert(s@.skip(0) =~= s@);
    while a < s.len() && class_has(s[a], CharClass::Whitespace)
        invariant
            a <= s@.len(),
            trim_start_in(s@, CharClass::Whitespace) == trim_start_in(
                s@.skip(a as int),
                CharClass::Whitespace,
            ),
        decreases s.len() - a,
    {
        assert(s@.skip(a as int).skip(1) =~= s@.skip(a + 1));
        a += 1;
    }
    let r = slice(s, a, s.len());
    assert(r@ =~= s@.skip(a as int));
    r
}

/// `s` with surrounding whitespace removed.
pub fn trim_ws(s: &Vec<char>) -> (r: Vec<char>)
    ensures
        r@ == trim(s@),
{
    trim_class(s, CharClass::Whitespace)
}

/// `s` with its surrounding whitespace, then its surrounding quotes, removed.
pub fn scalar_of(s: &Vec<char>) -> (r: Vec<char>)
    ensures
        r@ == scalar_text(s@),
{
    let t = trim_ws(s);
    trim_class(&t, CharClass::Quote)
}

/// `s` inside double quotes.
pub fn quoted(s: &Vec<char>) -> (r: Vec<char>)
    ensures
        r@ == quote(s@),
{
    let mut r = vec!['"'];
    push_all(&mut r, s);
    r.push('"');
    assert(r@ =~= quote(s@));
    r
}

/// The pieces of `s` between occurrences of `sep`.
pub fn split_on(s: &Vec<char>, sep: char) -> (r: Vec<Vec<char>>)
    ensures
        r@.len() >= 1,
        r@.map_values(|p: Vec<char>| p@) == split(s@, sep),
{
    let mut r: Vec<Vec<char>> = Vec::new();
    let mut rest = slice(s, 0, s.len());
    assert(rest@ =~= s@);
    loop
        invariant
            r@.map_values(|p: Vec<char>| p@) + split(rest@, sep) == split(s@, sep),
        decreases rest@.len(),
    {
        match find_ch(&rest, sep) {
            Some(i) => {
                proof {
                    assert(find_char(rest@, sep) == Some(i as int));
                    lemma_find_bounds(rest@, seq![sep]);
                }
                let n = rest.len();
                let piece = slice(&rest, 0, i);
                let tail = slice(&rest, i + 1, rest.len());
                proof {
                    assert(piece@ =~= rest@.take(i as int));
                    assert(tail@ =~= rest@.skip(i + 1));
                    assert(split(rest@, sep) == seq![piece@] + split(tail@, sep));
                    assert(r@.push(piece).map_values(|p: Vec<char>| p@) =~= r@.map_values(
                        |p: Vec<char>| p@,
                    ).push(piece@));
                    assert(r@.map_values(|p: Vec<char>| p@).push(piece@) + split(tail@, sep)
                        =~= r@.map_values(|p: Vec<char>| p@) + (seq![piece@] + split(
                        tail@,
                        sep,
                    )));
                }
                r.push(piece);
                rest = tail;
            },
            None => {
                proof {
                    assert(split(rest@, sep) == seq![rest@]);
                    assert(r@.push(rest).map_values(|p: Vec<char>| p@) =~= r@.map_values(
                        |p: Vec<char>| p@,
                    ).push(rest@));
                    assert(r@.map_values(|p: Vec<char>| p@).push(rest@) =~= r@.map_values(
                        |p: Vec<char>| p@,
                    ) + seq![rest@]);
                }
                r.push(rest);
                return r;
            },
        }
    }
}

} // verus!
