//! The module source string: `[git::]<url>[//<path>][?<k1>=<v1>&...]`.
//! Reading and rewriting its url, its path, and its query parameters.
use vstd::prelude::*;

use crate::error::TvError;
use crate::text::{
    lemma_cut_at_concat, lemma_cut_at_stop, lemma_find_from_bounds, lemma_find_from_first,
    lemma_find_char_absent, lemma_find_char_after, lemma_find_char_none, lemma_find_from_none,
    lemma_find_none_skip, lemma_occurs_char, lemma_find_from_is, lemma_find_in_take,
    lemma_find_prefix, lemma_find_shift, lemma_scalar_ends, lemma_unquote_quote,
    chars_of, cut_at, cut_pos, find, find_ch, find_char, find_text, lemma_find_bounds, matches_at,
    occurs_at, opt_int, push_all, quote, quoted, same_text, scalar_of, scalar_text, slice,
    string_of,
};

verus! {

pub open spec fn git_prefix() -> Seq<char> {
    seq!['g', 'i', 't', ':', ':']
}

pub open spec fn scheme_sep() -> Seq<char> {
    seq![':', '/', '/']
}

pub open spec fn double_slash() -> Seq<char> {
    seq!['/', '/']
}

pub open spec fn url_word() -> Seq<char> {
    seq!['u', 'r', 'l']
}

pub open spec fn path_word() -> Seq<char> {
    seq!['p', 'a', 't', 'h']
}

pub open spec fn opt_view(o: Option<String>) -> Option<Seq<char>> {
    match o {
        Some(s) => Some(s@),
        None => None,
    }
}

/// Where the url of the source string `s` ends. The `git::` prefix is no
/// scheme; the path delimiter is the first `//` after the scheme's `://`
/// (or the first `//` where there is no scheme); a `?` before that ends
/// the url instead.
pub open spec fn url_end(s: Seq<char>) -> int {
    let ss: int = git_skip(s);
    let e0: int = match find(s.skip(ss), scheme_sep()) {
        Some(pe) => match find(s.skip(ss + pe + 3), double_slash()) {
            Some(pi) => ss + pe + 3 + pi,
            None => s.len() as int,
        },
        None => match find(s.skip(ss), double_slash()) {
            Some(pi) => ss + pi,
            None => s.len() as int,
        },
    };
    match find_char(s.take(e0), '?') {
        Some(q) => q,
        None => e0,
    }
}

/// The url of a source string, `git::` prefix included.
pub open spec fn source_url(s: Seq<char>) -> Seq<char> {
    s.take(url_end(s))
}

/// Where a leading `git::` ends: it is no part of any scheme.
pub open spec fn git_skip(s: Seq<char>) -> int {
    if occurs_at(s, git_prefix(), 0) {
        5
    } else {
        0
    }
}

/// Where the search for the path delimiter starts: past the first `://`
/// after a leading `git::`, or past that `git::` where there is no scheme.
pub open spec fn scheme_end(s: Seq<char>) -> int {
    match find(s.skip(git_skip(s)), scheme_sep()) {
        Some(p) => git_skip(s) + p + 3,
        None => git_skip(s),
    }
}

/// The position of the path delimiter `//`, if there is one: the first `//`
/// past the scheme, where no `?` comes before it (a `?` starts the query
/// string, and a `//` inside the query string is no delimiter).
pub open spec fn path_delim(s: Seq<char>) -> Option<int> {
    match find(s.skip(scheme_end(s)), double_slash()) {
        Some(p) => if find_char(s.take(scheme_end(s) + p), '?') is None {
            Some(scheme_end(s) + p)
        } else {
            None
        },
        None => None,
    }
}

/// What follows the path delimiter, up to the query string.
pub open spec fn path_after(s: Seq<char>, d: int) -> Seq<char> {
    let rest = s.skip(d + 2);
    rest.take(
        match find_char(rest, '?') {
            Some(q) => q,
            None => rest.len() as int,
        },
    )
}

/// The path of a source string: between the delimiter and the query string;
/// `None` where there is no delimiter or nothing follows it.
pub open spec fn source_path(s: Seq<char>) -> Option<Seq<char>> {
    match path_delim(s) {
        Some(d) => if path_after(s, d).len() > 0 {
            Some(path_after(s, d))
        } else {
            None
        },
        None => None,
    }
}

/// The query string of `s` behind an `&`: the pairs that follow its first
/// `?`, each then preceded by an `&`.
pub open spec fn amp_query(s: Seq<char>, q: int) -> Seq<char> {
    seq!['&'] + s.skip(q + 1)
}

/// What opens the pair of parameter `name`: `&name=`.
pub open spec fn pair_key(name: Seq<char>) -> Seq<char> {
    seq!['&'] + name + seq!['=']
}

/// Where the value of query parameter `name` starts: just past the first
/// pair of the query string whose key is exactly `name` (a key starts right
/// after the first `?`, or after an `&` that follows it).
pub open spec fn param_start(s: Seq<char>, name: Seq<char>) -> Option<int> {
    match find_char(s, '?') {
        None => None,
        Some(q) => match find(amp_query(s, q), pair_key(name)) {
            Some(j) => Some(q + 1 + j + name.len() + 1),
            None => None,
        },
    }
}

/// The value of parameter `name`: from past `name=` up to the next `&`.
pub open spec fn param_value(s: Seq<char>, name: Seq<char>) -> Option<Seq<char>> {
    match param_start(s, name) {
        Some(vs) => Some(s.skip(vs).take(cut_at(s.skip(vs), seq!['&']))),
        None => None,
    }
}

/// The component `name` of the source string held by the value text
/// `source`: its url, its path, or one of its query parameters.
pub open spec fn source_component(source: Seq<char>, name: Seq<char>) -> Option<Seq<char>> {
    let s = scalar_text(source);
    if name == url_word() {
        Some(source_url(s))
    } else if name == path_word() {
        source_path(s)
    } else {
        param_value(s, name)
    }
}

/// `s` with its url replaced by `u`; all that follows the url is kept.
pub open spec fn with_url(s: Seq<char>, u: Seq<char>) -> Seq<char> {
    u + s.skip(url_end(s))
}

/// The part of `s` that precedes its path, and its query string.
pub open spec fn url_and_query(s: Seq<char>) -> (Seq<char>, Seq<char>) {
    match path_delim(s) {
        Some(d) => {
            let after = s.skip(d + 2);
            (
                s.take(d),
                match find_char(after, '?') {
                    Some(q) => after.skip(q),
                    None => Seq::empty(),
                },
            )
        },
        None => match find_char(s, '?') {
            Some(q) => (s.take(q), s.skip(q)),
            None => (s, Seq::empty()),
        },
    }
}

/// `p` without one leading `/`.
pub open spec fn strip_slash(p: Seq<char>) -> Seq<char> {
    if p.len() > 0 && p[0] == '/' {
        p.skip(1)
    } else {
        p
    }
}

/// `s` with its path replaced by `p` (or removed, with its delimiter, where
/// `p` is empty); the url and the query string are kept.
pub open spec fn with_path(s: Seq<char>, p: Seq<char>) -> Seq<char> {
    let (u, q) = url_and_query(s);
    let np = strip_slash(p);
    if np.len() == 0 {
        u + q
    } else {
        u + double_slash() + np + q
    }
}

/// `s` with the value of parameter `name` replaced by `v`, or, where there
/// is no such parameter, with `name=v` appended to the query string.
pub open spec fn with_param(s: Seq<char>, name: Seq<char>, v: Seq<char>) -> Seq<char> {
    match param_start(s, name) {
        Some(vs) => s.take(vs) + v + s.skip(vs).skip(cut_at(s.skip(vs), seq!['&'])),
        None => s + (if find_char(s, '?') is Some {
            seq!['&']
        } else {
            seq!['?']
        }) + name + seq!['='] + v,
    }
}

/// The value text `source` with its component `name` set to `v`, quoted.
pub open spec fn source_updated(source: Seq<char>, name: Seq<char>, v: Seq<char>) -> Seq<char> {
    let s = scalar_text(source);
    quote(
        if name == url_word() {
            with_url(s, v)
        } else if name == path_word() {
            with_path(s, v)
        } else {
            with_param(s, name, v)
        },
    )
}

/// `v + tail` is cut at `&` right after `v`, where `v` holds no `&` and
/// `tail` is what a cut at `&` left over.
proof fn lemma_cut_after_value(v: Seq<char>, rest: Seq<char>)
    requires
        !v.contains('&'),
    ensures
        cut_at(v + rest.skip(cut_at(rest, seq!['&'])), seq!['&']) == v.len(),
{
    lemma_cut_at_stop(rest, seq!['&']);
    let tail = rest.skip(cut_at(rest, seq!['&']));
    assert forall|j: int| 0 <= j < v.len() implies !seq!['&'].contains(v[j]) by {
        if seq!['&'].contains(v[j]) {
            assert(seq!['&'][0] == v[j]);
            assert(v.contains('&'));
        }
    }
    if tail.len() > 0 {
        assert(tail[0] == rest[cut_at(rest, seq!['&'])]);
    }
    lemma_cut_at_concat(v, tail, seq!['&']);
}

/// The case where the parameter is there: its value is replaced.
proof fn lemma_with_param_found(t: Seq<char>, name: Seq<char>, v: Seq<char>, q: int, j: int)
    requires
        !name.contains('&'),
        !v.contains('&'),
        find_char(t, '?') == Some(q),
        find(amp_query(t, q), pair_key(name)) == Some(j),
    ensures
        with_param(with_param(t, name, v), name, v) == with_param(t, name, v),
        with_param(t, name, v).len() > 0,
        with_param(t, name, v)[0] == (if t.len() > 0 {
            t[0]
        } else {
            '?'
        }),
        with_param(t, name, v).last() == '=' || (t.len() > 0 && with_param(t, name, v).last()
            == t.last()) || (v.len() > 0 && with_param(t, name, v).last() == v.last()),
{
    let x = with_param(t, name, v);
    let key = pair_key(name);
    let a = amp_query(t, q);
    lemma_find_bounds(t, seq!['?']);
    lemma_find_bounds(a, key);
        let vs = q + 1 + j + name.len() + 1;
        let rest = t.skip(vs);
        let tail = rest.skip(cut_at(rest, seq!['&']));
        lemma_cut_at_stop(rest, seq!['&']);
        assert(x =~= t.take(vs) + (v + tail));
        lemma_find_in_take(t, seq!['?'], vs);
        lemma_find_prefix(t.take(vs), v + tail, seq!['?']);
        let n = j + key.len();
        assert(amp_query(x, q) =~= a.take(n) + (v + tail));
        lemma_find_in_take(a, key, n);
        lemma_find_prefix(a.take(n), v + tail, key);
        lemma_cut_after_value(v, rest);
        assert(x.skip(vs) =~= v + tail);
        assert(x.take(vs) =~= t.take(vs));
        assert(x.skip(vs).skip(v.len() as int) =~= tail);
        assert(with_param(x, name, v) =~= x);
        assert(a.subrange(j, j + key.len())[key.len() - 1] == key[key.len() - 1]);
        assert(t[vs - 1] == a[n - 1]);
        assert(x[0] == t[0]);
        if tail.len() > 0 {
            assert(x.last() == t.last());
        } else if v.len() > 0 {
            assert(x.last() == v.last());
        } else {
            assert(x.last() == t[vs - 1]);
        }
}

/// The case where the query string lacks the parameter: `&name=v` is appended.
proof fn lemma_with_param_appended(t: Seq<char>, name: Seq<char>, v: Seq<char>, q: int)
    requires
        !name.contains('&'),
        !v.contains('&'),
        find_char(t, '?') == Some(q),
        find(amp_query(t, q), pair_key(name)) is None,
    ensures
        with_param(with_param(t, name, v), name, v) == with_param(t, name, v),
        with_param(t, name, v).len() > 0,
        with_param(t, name, v)[0] == (if t.len() > 0 {
            t[0]
        } else {
            '?'
        }),
        with_param(t, name, v).last() == '=' || (t.len() > 0 && with_param(t, name, v).last()
            == t.last()) || (v.len() > 0 && with_param(t, name, v).last() == v.last()),
{
    let x = with_param(t, name, v);
    let key = pair_key(name);
    let a = amp_query(t, q);
    lemma_find_bounds(t, seq!['?']);
    lemma_find_from_first(a, key, 0);
        assert(x =~= t + (key + v));
        lemma_find_prefix(t, key + v, seq!['?']);
        let ax = amp_query(x, q);
        assert(ax =~= a + key + v);
        let k = a.len() as int;
        assert(ax.subrange(k, k + key.len()) =~= key);
        assert forall|i: int| 0 <= i < k implies !occurs_at(ax, key, i) by {
            if i + key.len() <= k {
                assert(!occurs_at(a, key, i));
                assert(ax.subrange(i, i + key.len()) =~= a.subrange(i, i + key.len()));
            } else if occurs_at(ax, key, i) {
                let m = k - i;
                assert(ax.subrange(i, i + key.len())[m] == ax[k]);
                assert(ax[k] == '&');
                assert(key[m] == name[m - 1]);
            }
        }
        lemma_find_from_is(ax, key, 0, k);
        let vs = q + 1 + k + name.len() + 1;
        assert(x.skip(vs) =~= v + Seq::<char>::empty());
        assert(Seq::<char>::empty().skip(0) =~= Seq::<char>::empty());
        lemma_cut_after_value(v, Seq::<char>::empty());
        assert(with_param(x, name, v) =~= x);
        assert(x[0] == t[0]);
}

/// The case without a query string: `?name=v` is appended.
proof fn lemma_with_param_started(t: Seq<char>, name: Seq<char>, v: Seq<char>)
    requires
        !name.contains('&'),
        !v.contains('&'),
        find_char(t, '?') is None,
    ensures
        with_param(with_param(t, name, v), name, v) == with_param(t, name, v),
        with_param(t, name, v).len() > 0,
        with_param(t, name, v)[0] == (if t.len() > 0 {
            t[0]
        } else {
            '?'
        }),
        with_param(t, name, v).last() == '=' || (t.len() > 0 && with_param(t, name, v).last()
            == t.last()) || (v.len() > 0 && with_param(t, name, v).last() == v.last()),
{
    let x = with_param(t, name, v);
    let key = pair_key(name);
    assert(x =~= t + seq!['?'] + (key.skip(1) + v));
    lemma_find_char_none(t, '?');
    lemma_find_char_after(t, '?', key.skip(1) + v);
    let ax = amp_query(x, t.len() as int);
    assert(ax =~= key + v);
    assert(ax.subrange(0, key.len() as int) =~= key);
    lemma_find_from_is(ax, key, 0, 0);
    let vs: int = t.len() as int + 1 + name.len() + 1;
    assert(x.skip(vs) =~= v + Seq::<char>::empty());
    lemma_cut_after_value(v, Seq::<char>::empty());
    assert(with_param(x, name, v) =~= x);
    if t.len() > 0 {
        assert(x[0] == t[0]);
    } else {
        assert(x[0] == '?');
    }
}

/// Setting parameter `name` (no `&` in it) to `v` (no `&` in it) leaves a
/// string in which setting it to `v` again changes nothing.
proof fn lemma_with_param_fixed(t: Seq<char>, name: Seq<char>, v: Seq<char>)
    requires
        !name.contains('&'),
        !v.contains('&'),
    ensures
        with_param(with_param(t, name, v), name, v) == with_param(t, name, v),
        with_param(t, name, v).len() > 0,
        with_param(t, name, v)[0] == (if t.len() > 0 {
            t[0]
        } else {
            '?'
        }),
        with_param(t, name, v).last() == '=' || (t.len() > 0 && with_param(t, name, v).last()
            == t.last()) || (v.len() > 0 && with_param(t, name, v).last() == v.last()),
{
    lemma_find_bounds(t, seq!['?']);
    match find_char(t, '?') {
        Some(q) => {
            match find(amp_query(t, q), pair_key(name)) {
                Some(j) => lemma_with_param_found(t, name, v, q, j),
                None => lemma_with_param_appended(t, name, v, q),
            }
        },
        None => lemma_with_param_started(t, name, v),
    }
}

/// Setting a query parameter `name` (no `url`, `path` or `&`) to a value
/// `v` (no `&`, no trailing quote) twice gives what setting it once gives.
pub proof fn lemma_update_param_idempotent(s: Seq<char>, name: Seq<char>, v: Seq<char>)
    requires
        name != url_word(),
        name != path_word(),
        !name.contains('&'),
        !v.contains('&'),
        v.len() == 0 || v.last() != '"',
    ensures
        source_updated(source_updated(s, name, v), name, v) == source_updated(s, name, v),
{
    let t = scalar_text(s);
    let x = with_param(t, name, v);
    lemma_scalar_ends(s);
    lemma_with_param_fixed(t, name, v);
    lemma_unquote_quote(x);
}

/// Setting `ref` to `v1` twice gives what setting it once gives.
pub proof fn lemma_update_ref_twice(s: Seq<char>)
    ensures
        source_updated(source_updated(s, seq!['r', 'e', 'f'], seq!['v', '1']), seq!['r', 'e', 'f'], seq!['v', '1'])
            == source_updated(s, seq!['r', 'e', 'f'], seq!['v', '1']),
{
    let name = seq!['r', 'e', 'f'];
    let v = seq!['v', '1'];
    assert(name != url_word()) by {
        assert(name[0] != url_word()[0]);
    }
    assert(name != path_word()) by {
        assert(name.len() != path_word().len());
    }
    assert(!name.contains('&'));
    assert(!v.contains('&'));
    lemma_update_param_idempotent(s, name, v);
}

/// A url with no `//` after its scheme's `://` (or none at all, without a
/// scheme), and not ending in `:` or `/`.
pub open spec fn plain_url(w: Seq<char>) -> bool {
    &&& find(w.skip(scheme_end(w)), double_slash()) is None
    &&& (w.len() == 0 || (w.last() != ':' && w.last() != '/'))
}

proof fn lemma_url_end_bounds(s: Seq<char>)
    ensures
        0 <= url_end(s) <= s.len(),
{
    let ss: int = if occurs_at(s, git_prefix(), 0) {
        5
    } else {
        0
    };
    lemma_find_bounds(s.skip(ss), scheme_sep());
    lemma_find_bounds(s.skip(ss), double_slash());
    match find(s.skip(ss), scheme_sep()) {
        Some(pe) => {
            lemma_find_bounds(s.skip(ss + pe + 3), double_slash());
        },
        None => {},
    }
    let e0: int = match find(s.skip(ss), scheme_sep()) {
        Some(pe) => match find(s.skip(ss + pe + 3), double_slash()) {
            Some(pi) => ss + pe + 3 + pi,
            None => s.len() as int,
        },
        None => match find(s.skip(ss), double_slash()) {
            Some(pi) => ss + pi,
            None => s.len() as int,
        },
    };
    lemma_find_bounds(s.take(e0), seq!['?']);
}

/// The path delimiter and the url agree for every source string: what a
/// path update keeps in front is the url, up to the path delimiter or the
/// query string, and the query string it keeps starts where the url ends or
/// after the path.
pub proof fn lemma_url_kept_by_path_update(s: Seq<char>)
    ensures
        url_and_query(s).0 == source_url(s),
        path_delim(s) matches Some(d) ==> d == url_end(s),
        path_delim(s) is None ==> url_and_query(s).1 == s.skip(url_end(s)),
{
    let ss = git_skip(s);
    let se = scheme_end(s);
    lemma_find_bounds(s.skip(ss), scheme_sep());
    lemma_find_bounds(s.skip(se), double_slash());
    let e0: int = match find(s.skip(se), double_slash()) {
        Some(p) => se + p,
        None => s.len() as int,
    };
    assert(url_end(s) == match find_char(s.take(e0), '?') {
        Some(q) => q,
        None => e0,
    });
    lemma_find_bounds(s.take(e0), seq!['?']);
    lemma_find_bounds(s, seq!['?']);
    match find_char(s.take(e0), '?') {
        Some(q) => {
            lemma_find_prefix(s.take(e0), s.skip(e0), seq!['?']);
            assert(s.take(e0) + s.skip(e0) =~= s);
            assert(path_delim(s) is None);
        },
        None => {
            match find(s.skip(se), double_slash()) {
                Some(p) => {
                    assert(path_delim(s) == Some(e0));
                },
                None => {
                    assert(s.take(e0) =~= s);
                    assert(path_delim(s) is None);
                    assert(s.skip(e0) =~= Seq::<char>::empty());
                },
            }
        },
    }
}

/// A text that is empty or starts with `?` or `/` leaves a leading `git::`
/// of `w` as it was; and a plain `w` that starts with one goes on past it.
proof fn lemma_git_skip_behind(w: Seq<char>, tail: Seq<char>)
    requires
        plain_url(w),
        tail.len() == 0 || tail[0] == '?' || tail[0] == '/',
    ensures
        git_skip(w + tail) == git_skip(w),
        git_skip(w) < w.len() || git_skip(w) == 0,
{
    let x = w + tail;
    if w.len() >= 5 {
        assert(x.subrange(0, 5) =~= w.subrange(0, 5));
        if occurs_at(w, git_prefix(), 0) && w.len() == 5 {
            assert(w.subrange(0, 5)[4] == w.last());
        }
    } else if tail.len() > 0 && occurs_at(x, git_prefix(), 0) {
        assert(x.subrange(0, 5)[w.len() as int] == x[w.len() as int]);
        assert(x[w.len() as int] == tail[0]);
    }
}

/// Behind a plain url with no `?`, and before a `tail` with no `://`, the
/// path delimiter is the first `//` of `tail`, where no `?` precedes it.
proof fn lemma_path_delim_behind(w: Seq<char>, tail: Seq<char>)
    requires
        plain_url(w),
        !w.contains('?'),
        find(tail, scheme_sep()) is None,
        tail.len() == 0 || tail[0] == '?' || tail[0] == '/',
    ensures
        path_delim(w + tail) == (match find(tail, double_slash()) {
            Some(k) => if find_char(tail.take(k), '?') is None {
                Some(w.len() + k)
            } else {
                None
            },
            None => None,
        }),
{
    let x = w + tail;
    lemma_git_skip_behind(w, tail);
    let gs = git_skip(w);
    let w1 = w.skip(gs);
    assert(x.skip(gs) =~= w1 + tail);
    lemma_find_bounds(w1, scheme_sep());
    let se = scheme_end(w);
    match find(w1, scheme_sep()) {
        Some(p) => {
            lemma_find_prefix(w1, tail, scheme_sep());
        },
        None => {
            lemma_find_from_first(w1, scheme_sep(), 0);
            assert forall|j: int| 0 <= j < w1.len() implies !occurs_at(
                w1 + tail,
                scheme_sep(),
                j,
            ) by {
                if j + 3 <= w1.len() {
                    assert(!occurs_at(w1, scheme_sep(), j));
                    assert((w1 + tail).subrange(j, j + 3) =~= w1.subrange(j, j + 3));
                } else if occurs_at(w1 + tail, scheme_sep(), j) {
                    let i = w1.len() - 1 - j;
                    assert((w1 + tail).subrange(j, j + 3)[i] == (w1 + tail)[w1.len() - 1]);
                    assert((w1 + tail)[w1.len() - 1] == w.last());
                }
            }
            lemma_find_shift(w1, tail, scheme_sep());
        },
    }
    assert(scheme_end(x) == se);
    let w2 = w.skip(se);
    assert(x.skip(se) =~= w2 + tail);
    lemma_find_from_first(w2, double_slash(), 0);
    assert forall|j: int| 0 <= j < w2.len() implies !occurs_at(w2 + tail, double_slash(), j) by {
        if j + 2 <= w2.len() {
            assert(!occurs_at(w2, double_slash(), j));
            assert((w2 + tail).subrange(j, j + 2) =~= w2.subrange(j, j + 2));
        } else if occurs_at(w2 + tail, double_slash(), j) {
            assert((w2 + tail).subrange(j, j + 2)[0] == (w2 + tail)[j]);
            assert((w2 + tail)[j] == w2.last());
            assert(w2.last() == w.last());
        }
    }
    lemma_find_shift(w2, tail, double_slash());
    lemma_find_bounds(tail, double_slash());
    match find(tail, double_slash()) {
        Some(k) => {
            let h = tail.take(k);
            assert(x.take(w.len() + k) =~= w + h);
            assert forall|j: int| 0 <= j < w.len() implies !occurs_at(w + h, seq!['?'], j) by {
                lemma_occurs_char(w + h, '?', j);
                assert((w + h)[j] == w[j]);
            }
            lemma_find_shift(w, h, seq!['?']);
        },
        None => {},
    }
}

/// Replacing the url of a source string keeps its path: where the old and
/// the new url are plain (see `plain_url`) and hold no `?`, and what follows
/// the url holds no `://`.
pub proof fn lemma_update_url_keeps_path(s: Seq<char>, u: Seq<char>)
    requires
        plain_url(u),
        plain_url(source_url(s)),
        !u.contains('?'),
        !source_url(s).contains('?'),
        find(s.skip(url_end(s)), scheme_sep()) is None,
    ensures
        source_path(with_url(s, u)) == source_path(s),
{
    lemma_url_end_bounds(s);
    let e = url_end(s);
    let a = s.take(e);
    let tail = s.skip(e);
    assert(s =~= a + tail);
    lemma_url_rest_shape(s);
    lemma_path_delim_behind(u, tail);
    lemma_path_delim_behind(a, tail);
    match find(tail, double_slash()) {
        Some(k) => {
            lemma_find_bounds(tail, double_slash());
            assert((u + tail).skip(u.len() + k + 2) =~= tail.skip(k + 2));
            assert((a + tail).skip(a.len() + k + 2) =~= tail.skip(k + 2));
        },
        None => {},
    }
}

/// What follows the url is empty, or starts with the `?` of the query
/// string, or with the `//` of the path delimiter.
proof fn lemma_url_rest_shape(s: Seq<char>)
    ensures
        ({
            let r = s.skip(url_end(s));
            r.len() == 0 || r[0] == '?' || (r.len() >= 2 && r[0] == '/' && r[1] == '/')
        }),
{
    lemma_url_end_bounds(s);
    let ss: int = if occurs_at(s, git_prefix(), 0) {
        5
    } else {
        0
    };
    lemma_find_bounds(s.skip(ss), scheme_sep());
    lemma_find_bounds(s.skip(ss), double_slash());
    let e0: int = match find(s.skip(ss), scheme_sep()) {
        Some(pe) => {
            lemma_find_bounds(s.skip(ss + pe + 3), double_slash());
            match find(s.skip(ss + pe + 3), double_slash()) {
                Some(pi) => {
                    assert(s.skip(ss + pe + 3).subrange(pi, pi + 2)[0] == s[ss + pe + 3 + pi]);
                    assert(s.skip(ss + pe + 3).subrange(pi, pi + 2)[1] == s[ss + pe + 3 + pi + 1]);
                    ss + pe + 3 + pi
                },
                None => s.len() as int,
            }
        },
        None => match find(s.skip(ss), double_slash()) {
            Some(pi) => {
                assert(s.skip(ss).subrange(pi, pi + 2)[0] == s[ss + pi]);
                assert(s.skip(ss).subrange(pi, pi + 2)[1] == s[ss + pi + 1]);
                ss + pi
            },
            None => s.len() as int,
        },
    };
    lemma_find_bounds(s.take(e0), seq!['?']);
    match find_char(s.take(e0), '?') {
        Some(q) => {
            assert(s.take(e0).subrange(q, q + 1)[0] == s[q]);
        },
        None => {},
    }
}

/// The characters of `w` before `n` include no `?` where `w` has none.
proof fn lemma_take_no_question(w: Seq<char>, n: int)
    requires
        !w.contains('?'),
        0 <= n <= w.len(),
    ensures
        find_char(w.take(n), '?') is None,
{
    assert forall|j: int| 0 <= j < n implies w.take(n)[j] != '?' by {
        assert(w.take(n)[j] == w[j]);
    }
    lemma_find_char_absent(w.take(n), '?');
}

/// Behind a url `w` that is plain, holds no `?` and is all url, a text `x`
/// that starts a query string or a path (or is empty) and holds no `://`
/// leaves the url where it was.
proof fn lemma_url_end_behind(w: Seq<char>, x: Seq<char>)
    requires
        plain_url(w),
        !w.contains('?'),
        url_end(w) == w.len(),
        find(x, scheme_sep()) is None,
        x.len() == 0 || x[0] == '?' || (x.len() >= 2 && x[0] == '/' && x[1] == '/'),
    ensures
        url_end(w + x) == w.len(),
{
    let s = w + x;
    let gw = occurs_at(w, git_prefix(), 0);
    assert(occurs_at(s, git_prefix(), 0) == gw) by {
        if w.len() >= 5 {
            assert(s.subrange(0, 5) =~= w.subrange(0, 5));
        } else if x.len() > 0 && occurs_at(s, git_prefix(), 0) {
            assert(s.subrange(0, 5)[w.len() as int] == s[w.len() as int]);
            assert(s[w.len() as int] == x[0]);
        }
    }
    let ss: int = if gw {
        5
    } else {
        0
    };
    let w1 = w.skip(ss);
    assert(s.skip(ss) =~= w1 + x);
    lemma_find_bounds(w1, scheme_sep());
    lemma_find_bounds(x, double_slash());
    // where the search for the delimiter starts, in `w` and in `s`
    let m: int = match find(w1, scheme_sep()) {
        Some(pe) => {
            lemma_find_prefix(w1, x, scheme_sep());
            ss + pe + 3
        },
        None => {
            assert forall|j: int| 0 <= j < w1.len() implies !occurs_at(
                w1 + x,
                scheme_sep(),
                j,
            ) by {
                lemma_find_from_first(w1, scheme_sep(), 0);
                if j + 3 <= w1.len() {
                    assert(!occurs_at(w1, scheme_sep(), j));
                    assert((w1 + x).subrange(j, j + 3) =~= w1.subrange(j, j + 3));
                } else if occurs_at(w1 + x, scheme_sep(), j) {
                    let i = w1.len() - 1 - j;
                    assert((w1 + x).subrange(j, j + 3)[i] == (w1 + x)[w1.len() - 1]);
                    assert((w1 + x)[w1.len() - 1] == w.last());
                }
            }
            lemma_find_shift(w1, x, scheme_sep());
            ss
        },
    };
    let w2 = w.skip(m);
    assert(s.skip(m) =~= w2 + x);
    // `w` is all url, so no `//` follows the point where the search starts
    lemma_find_bounds(w2, double_slash());
    assert(find(w2, double_slash()) is None) by {
        if find(w2, double_slash()) is Some {
            let e0 = m + find(w2, double_slash())->0;
            lemma_take_no_question(w, e0);
        }
    }
    lemma_find_from_first(w2, double_slash(), 0);
    assert forall|j: int| 0 <= j < w2.len() implies !occurs_at(w2 + x, double_slash(), j) by {
        if j + 2 <= w2.len() {
            assert(!occurs_at(w2, double_slash(), j));
            assert((w2 + x).subrange(j, j + 2) =~= w2.subrange(j, j + 2));
        } else if occurs_at(w2 + x, double_slash(), j) {
            assert((w2 + x).subrange(j, j + 2)[0] == (w2 + x)[j]);
            assert((w2 + x)[j] == w.last());
        }
    }
    lemma_find_shift(w2, x, double_slash());
    let e0: int = match find(x, double_slash()) {
        Some(k) => w.len() + k,
        None => s.len() as int,
    };
    if x.len() == 0 {
        assert(s =~= w);
        lemma_take_no_question(w, w.len() as int);
    } else if x[0] == '?' {
        assert(e0 > w.len()) by {
            match find(x, double_slash()) {
                Some(k) => {
                    if k == 0 {
                        assert(x.subrange(0, 2)[0] == x[0]);
                    }
                },
                None => {},
            }
        }
        assert(s.take(e0) =~= w + seq!['?'] + s.take(e0).skip(w.len() as int + 1));
        lemma_find_char_after(w, '?', s.take(e0).skip(w.len() as int + 1));
    } else {
        assert(x.subrange(0, 2) =~= double_slash());
        lemma_find_from_is(x, double_slash(), 0, 0);
        assert(s.take(e0) =~= w.take(w.len() as int));
        lemma_take_no_question(w, w.len() as int);
    }
}

/// What `with_path` keeps of a source string whose url is plain and holds
/// no `?`, and whose rest holds no `://`: the url itself, and a query
/// string (empty, or from its `?` on) with no `://`.
proof fn lemma_url_and_query_kept(s: Seq<char>)
    requires
        plain_url(source_url(s)),
        !source_url(s).contains('?'),
        find(s.skip(url_end(s)), scheme_sep()) is None,
    ensures
        url_and_query(s).0 == source_url(s),
        find(url_and_query(s).1, scheme_sep()) is None,
        url_and_query(s).1.len() == 0 || url_and_query(s).1[0] == '?',
{
    lemma_url_end_bounds(s);
    lemma_url_rest_shape(s);
    let e = url_end(s);
    let w = s.take(e);
    let r = s.skip(e);
    assert(s =~= w + r);
    lemma_path_delim_behind(w, r);
    lemma_find_bounds(r, double_slash());
    // the url and the query string that `with_path` keeps
    let q: Seq<char> = if r.len() >= 2 && r[0] == '/' && r[1] == '/' {
        assert(r.subrange(0, 2) =~= double_slash());
        lemma_find_from_is(r, double_slash(), 0, 0);
        assert(r.take(0) =~= Seq::<char>::empty());
        lemma_find_char_absent(r.take(0), '?');
        assert(path_delim(s) == Some(e));
        let after = s.skip(e + 2);
        assert(after =~= r.skip(2));
        lemma_find_bounds(after, seq!['?']);
        match find_char(after, '?') {
            Some(qi) => {
                assert(after.subrange(qi, qi + 1)[0] == after[qi]);
                lemma_find_none_skip(r, scheme_sep(), 2 + qi);
                assert(after.skip(qi) =~= r.skip(2 + qi));
                after.skip(qi)
            },
            None => Seq::empty(),
        }
    } else {
        if r.len() > 0 {
            match find(r, double_slash()) {
                Some(k) => {
                    if k == 0 {
                        assert(r.subrange(0, 2)[0] == r[0]);
                        assert(r.subrange(0, 2)[1] == r[1]);
                    }
                    assert(r.take(k).subrange(0, 1) =~= seq!['?']);
                    lemma_find_from_is(r.take(k), seq!['?'], 0, 0);
                },
                None => {},
            }
            assert(path_delim(s) is None);
            assert(r =~= seq!['?'] + r.skip(1));
            lemma_find_char_after(w, '?', r.skip(1));
            assert(w + seq!['?'] + r.skip(1) =~= s);
            assert(s.skip(e) == r);
            r
        } else {
            assert(path_delim(s) is None);
            lemma_take_no_question(w, w.len() as int);
            assert(w.take(w.len() as int) =~= s);
            Seq::empty()
        }
    };
    assert(url_and_query(s) == (w, q));
    assert(find(q, scheme_sep()) is None) by {
        if q.len() == 0 {
            lemma_find_from_none(q, scheme_sep(), 0);
        }
    }
}

/// `//`, a path with no `:`, and a query string with no `://` hold no `://`.
proof fn lemma_path_text_no_scheme(np: Seq<char>, q: Seq<char>)
    requires
        !np.contains(':'),
        find(q, scheme_sep()) is None,
    ensures
        find(double_slash() + np + q, scheme_sep()) is None,
{
    let x = double_slash() + np + q;
    lemma_find_from_first(q, scheme_sep(), 0);
    assert forall|j: int| 0 <= j implies !occurs_at(x, scheme_sep(), j) by {
        if occurs_at(x, scheme_sep(), j) {
            assert(x.subrange(j, j + 3)[0] == x[j]);
            assert(scheme_sep()[0] == ':');
            assert(x[j] == ':');
            if j < 2 {
                assert(x[j] == '/');
            } else if j < 2 + np.len() {
                assert(x[j] == np[j - 2]);
            } else {
                let i = j - 2 - np.len();
                assert(x.subrange(j, j + 3) =~= q.subrange(i, i + 3));
                assert(occurs_at(q, scheme_sep(), i));
            }
        }
    }
    lemma_find_from_none(x, scheme_sep(), 0);
}

/// Replacing the path of a source string keeps its url: where the url is
/// plain (see `plain_url`), holds no `?` and is all url, what follows it
/// holds no `://`, and the new path holds no `:`.
pub proof fn lemma_update_path_keeps_url(s: Seq<char>, p: Seq<char>)
    requires
        plain_url(source_url(s)),
        !source_url(s).contains('?'),
        url_end(source_url(s)) == source_url(s).len(),
        find(s.skip(url_end(s)), scheme_sep()) is None,
        !p.contains(':'),
    ensures
        source_url(with_path(s, p)) == source_url(s),
{
    lemma_url_and_query_kept(s);
    let w = source_url(s);
    let q = url_and_query(s).1;
    lemma_url_end_bounds(s);
    assert(w.len() == url_end(s));
    let np = strip_slash(p);
    assert(!np.contains(':')) by {
        assert forall|j: int| 0 <= j < np.len() implies np[j] != ':' by {
            if p.len() > 0 && p[0] == '/' {
                assert(np[j] == p[j + 1]);
            } else {
                assert(np[j] == p[j]);
            }
        }
    }
    if np.len() == 0 {
        lemma_url_end_behind(w, q);
        assert((w + q).take(w.len() as int) =~= w);
    } else {
        let x = double_slash() + np + q;
        lemma_path_text_no_scheme(np, q);
        lemma_url_end_behind(w, x);
        assert(with_path(s, p) =~= w + x);
        assert((w + x).take(w.len() as int) =~= w);
    }
}

/// The position of the first `pat` in `s` at or after `from`, counted from the start of `s`.
fn find_after(s: &Vec<char>, pat: &Vec<char>, from: usize) -> (r: Option<usize>)
    requires
        from <= s@.len(),
    ensures
        opt_int(r) == (match find(s@.skip(from as int), pat@) {
            Some(p) => Some(from + p),
            None => None,
        }),
        r matches Some(i) ==> from <= i && i + pat@.len() <= s.len(),
{
    let tail = slice(s, from, s.len());
    assert(tail@ =~= s@.skip(from as int));
    proof {
        lemma_find_bounds(tail@, pat@);
    }
    match find_text(&tail, pat) {
        Some(p) => Some(from + p),
        None => None,
    }
}

/// Where the url of `s` ends.
pub fn url_end_of(s: &Vec<char>) -> (r: usize)
    ensures
        r == url_end(s@),
        r <= s@.len(),
{
    let n = s.len();
    let git = vec!['g', 'i', 't', ':', ':'];
    let sep = vec![':', '/', '/'];
    let dsl = vec!['/', '/'];
    assert(git@ =~= git_prefix());
    assert(sep@ =~= scheme_sep());
    assert(dsl@ =~= double_slash());
    let ss: usize = if matches_at(s, &git, 0) {
        5
    } else {
        0
    };
    let mut e: usize = s.len();
    match find_after(s, &sep, ss) {
        Some(p) => {
            match find_after(s, &dsl, p + 3) {
                Some(pi) => {
                    e = pi;
                },
                None => {},
            }
        },
        None => {
            match find_after(s, &dsl, ss) {
                Some(pi) => {
                    e = pi;
                },
                None => {},
            }
        },
    }
    let head = slice(s, 0, e);
    assert(head@ =~= s@.take(e as int));
    proof {
        lemma_find_bounds(head@, seq!['?']);
    }
    match find_ch(&head, '?') {
        Some(q) => q,
        None => e,
    }
}

/// The url of `s`.
pub fn source_url_of(s: &Vec<char>) -> (r: Vec<char>)
    ensures
        r@ == source_url(s@),
{
    let e = url_end_of(s);
    slice(s, 0, e)
}

/// The position of the path delimiter of `s`.
pub fn path_delim_of(s: &Vec<char>) -> (r: Option<usize>)
    ensures
        opt_int(r) == path_delim(s@),
        r matches Some(d) ==> d + 2 <= s.len(),
{
    let n = s.len();
    let git = vec!['g', 'i', 't', ':', ':'];
    let sep = vec![':', '/', '/'];
    let dsl = vec!['/', '/'];
    assert(git@ =~= git_prefix());
    assert(sep@ =~= scheme_sep());
    assert(dsl@ =~= double_slash());
    let gs: usize = if matches_at(s, &git, 0) {
        5
    } else {
        0
    };
    let ss: usize = match find_after(s, &sep, gs) {
        Some(p) => p + 3,
        None => gs,
    };
    match find_after(s, &dsl, ss) {
        Some(d) => {
            let head = slice(s, 0, d);
            assert(head@ =~= s@.take(d as int));
            match find_ch(&head, '?') {
                Some(_) => None,
                None => Some(d),
            }
        },
        None => None,
    }
}

/// The path of `s`.
pub fn source_path_of(s: &Vec<char>) -> (r: Option<Vec<char>>)
    ensures
        match r {
            Some(p) => source_path(s@) == Some(p@),
            None => source_path(s@) is None,
        },
{
    match path_delim_of(s) {
        Some(d) => {
            let rest = slice(s, d + 2, s.len());
            assert(rest@ =~= s@.skip(d + 2));
            proof {
                lemma_find_bounds(rest@, seq!['?']);
            }
            let pe = match find_ch(&rest, '?') {
                Some(q) => q,
                None => rest.len(),
            };
            let p = slice(&rest, 0, pe);
            assert(p@ =~= path_after(s@, d as int));
            if p.len() > 0 {
                Some(p)
            } else {
                None
            }
        },
        None => None,
    }
}

/// Where the value of parameter `name` starts in `s`.
fn param_start_of(s: &Vec<char>, name: &Vec<char>) -> (r: Option<usize>)
    ensures
        opt_int(r) == param_start(s@, name@),
        r matches Some(vs) ==> vs <= s.len(),
{
    let n = s.len();
    proof {
        lemma_find_bounds(s@, seq!['?']);
    }
    let q = match find_ch(s, '?') {
        Some(q) => q,
        None => {
            return None;
        },
    };
    let mut a = vec!['&'];
    push_all(&mut a, &slice(s, q + 1, s.len()));
    assert(a@ =~= amp_query(s@, q as int));
    let mut pat = vec!['&'];
    push_all(&mut pat, name);
    pat.push('=');
    assert(pat@ =~= pair_key(name@));
    proof {
        lemma_find_bounds(a@, pat@);
    }
    match find_text(&a, &pat) {
        Some(j) => Some(q + 1 + j + name.len() + 1),
        None => None,
    }
}

/// The value of parameter `name` in `s`.
pub fn param_value_of(s: &Vec<char>, name: &Vec<char>) -> (r: Option<Vec<char>>)
    ensures
        match r {
            Some(v) => param_value(s@, name@) == Some(v@),
            None => param_value(s@, name@) is None,
        },
{
    match param_start_of(s, name) {
        Some(vs) => {
            let rem = slice(s, vs, s.len());
            assert(rem@ =~= s@.skip(vs as int));
            let amp = vec!['&'];
            assert(amp@ =~= seq!['&']);
            let ve = cut_pos(&rem, &amp);
            Some(slice(&rem, 0, ve))
        },
        None => None,
    }
}

/// Whether `name` is `url`.
fn is_url_word(name: &Vec<char>) -> (r: bool)
    ensures
        r == (name@ == url_word()),
{
    let w = vec!['u', 'r', 'l'];
    assert(w@ =~= url_word());
    same_text(name, &w)
}

/// Whether `name` is `path`.
fn is_path_word(name: &Vec<char>) -> (r: bool)
    ensures
        r == (name@ == path_word()),
{
    let w = vec!['p', 'a', 't', 'h'];
    assert(w@ =~= path_word());
    same_text(name, &w)
}

/// The component `name` of the source string held by `source`.
pub fn component_of(source: &Vec<char>, name: &Vec<char>) -> (r: Option<Vec<char>>)
    ensures
        match r {
            Some(v) => source_component(source@, name@) == Some(v@),
            None => source_component(source@, name@) is None,
        },
{
    let s = scalar_of(source);
    if is_url_word(name) {
        Some(source_url_of(&s))
    } else if is_path_word(name) {
        source_path_of(&s)
    } else {
        param_value_of(&s, name)
    }
}

/// `s` with its url replaced by `u`.
pub fn with_url_of(s: &Vec<char>, u: &Vec<char>) -> (r: Vec<char>)
    ensures
        r@ == with_url(s@, u@),
{
    let e = url_end_of(s);
    let tail = slice(s, e, s.len());
    let mut r = vec![];
    push_all(&mut r, u);
    push_all(&mut r, &tail);
    assert(r@ =~= with_url(s@, u@));
    r
}

/// `s` with its path replaced by `p`.
pub fn with_path_of(s: &Vec<char>, p: &Vec<char>) -> (r: Vec<char>)
    ensures
        r@ == with_path(s@, p@),
{
    let (u, q) = match path_delim_of(s) {
        Some(d) => {
            let after = slice(s, d + 2, s.len());
            assert(after@ =~= s@.skip(d + 2));
            proof {
                lemma_find_bounds(after@, seq!['?']);
            }
            let q = match find_ch(&after, '?') {
                Some(qi) => slice(&after, qi, after.len()),
                None => Vec::new(),
            };
            (slice(s, 0, d), q)
        },
        None => {
            proof {
                lemma_find_bounds(s@, seq!['?']);
            }
            match find_ch(s, '?') {
                Some(qi) => (slice(s, 0, qi), slice(s, qi, s.len())),
                None => (slice(s, 0, s.len()), Vec::new()),
            }
        },
    };
    assert(s@.subrange(0, s@.len() as int) =~= s@);
    assert((u@, q@) == url_and_query(s@));
    let np = if p.len() > 0 && p[0] == '/' {
        slice(p, 1, p.len())
    } else {
        slice(p, 0, p.len())
    };
    assert(np@ =~= strip_slash(p@));
    let mut r = vec![];
    push_all(&mut r, &u);
    if np.len() > 0 {
        r.push('/');
        r.push('/');
        push_all(&mut r, &np);
    }
    push_all(&mut r, &q);
    assert(r@ =~= with_path(s@, p@));
    r
}

/// `s` with the value of parameter `name` set to `v`.
pub fn with_param_of(s: &Vec<char>, name: &Vec<char>, v: &Vec<char>) -> (r: Vec<char>)
    ensures
        r@ == with_param(s@, name@, v@),
{
    let mut r = vec![];
    match param_start_of(s, name) {
        Some(vs) => {
            let rem = slice(s, vs, s.len());
            assert(rem@ =~= s@.skip(vs as int));
            let amp = vec!['&'];
            assert(amp@ =~= seq!['&']);
            let ve = cut_pos(&rem, &amp);
            let head = slice(s, 0, vs);
            let tail = slice(&rem, ve, rem.len());
            push_all(&mut r, &head);
            push_all(&mut r, v);
            push_all(&mut r, &tail);
        },
        None => {
            push_all(&mut r, s);
            match find_ch(s, '?') {
                Some(_) => r.push('&'),
                None => r.push('?'),
            }
            push_all(&mut r, name);
            r.push('=');
            push_all(&mut r, v);
        },
    }
    assert(r@ =~= with_param(s@, name@, v@));
    r
}

/// The value text `source` with its component `name` set to `v`, quoted.
pub fn updated_of(source: &Vec<char>, name: &Vec<char>, v: &Vec<char>) -> (r: Vec<char>)
    ensures
        r@ == source_updated(source@, name@, v@),
{
    let s = scalar_of(source);
    let inner = if is_url_word(name) {
        with_url_of(&s, v)
    } else if is_path_word(name) {
        with_path_of(&s, v)
    } else {
        with_param_of(&s, name, v)
    };
    quoted(&inner)
}

/// The url of the source string `source`, `git::` prefix included: all that
/// precedes the path delimiter or the query string.
pub fn extract_url_from_source(source: &str) -> (r: String)
    ensures
        r@ == source_url(source@),
{
    let s = chars_of(source);
    string_of(&source_url_of(&s))
}

/// The path of the source string `source`, if it has a non-empty one.
pub fn extract_path_from_source(source: &str) -> (r: Option<String>)
    ensures
        opt_view(r) == source_path(source@),
{
    let s = chars_of(source);
    match source_path_of(&s) {
        Some(p) => Some(string_of(&p)),
        None => None,
    }
}

/// The component `param_name` (`url`, `path`, or a query parameter) of the
/// source string held by the value text `source`, which may be quoted.
/// `Ok(None)` where it has no such component.
pub fn extract_param_from_source(source: &str, param_name: &str) -> (r: Result<
    Option<String>,
    TvError,
>)
    ensures
        r matches Ok(o) && opt_view(o) == source_component(source@, param_name@),
{
    let s = chars_of(source);
    let n = chars_of(param_name);
    match component_of(&s, &n) {
        Some(v) => Ok(Some(string_of(&v))),
        None => Ok(None),
    }
}

/// The source string `source` with its url replaced by `new_url`.
pub fn update_url_in_source(source: &str, new_url: &str) -> (r: String)
    ensures
        r@ == with_url(source@, new_url@),
{
    let s = chars_of(source);
    let u = chars_of(new_url);
    string_of(&with_url_of(&s, &u))
}

/// The source string `source` with its path replaced by `new_path` (one
/// leading `/` dropped), or removed where `new_path` is empty.
pub fn update_path_in_source(source: &str, new_path: &str) -> (r: String)
    ensures
        r@ == with_path(source@, new_path@),
{
    let s = chars_of(source);
    let p = chars_of(new_path);
    string_of(&with_path_of(&s, &p))
}

/// The value text `source` with its component `param_name` set to
/// `new_value`, as a quoted string literal. A missing query parameter is
/// appended.
pub fn update_param_in_source(source: &str, param_name: &str, new_value: &str) -> (r: Result<
    String,
    TvError,
>)
    ensures
        r matches Ok(t) && t@ == source_updated(source@, param_name@, new_value@),
{
    let s = chars_of(source);
    let n = chars_of(param_name);
    let v = chars_of(new_value);
    Ok(string_of(&updated_of(&s, &n, &v)))
}

} // verus!
