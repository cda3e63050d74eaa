//! Inline object literals (`{ key = value, ... }`) read and rewritten as
//! text: a key's value runs from past `key =` to the next separator.
use vstd::prelude::*;

use crate::codec::{component_of, source_component, source_updated, updated_of};
use crate::error::TvError;
use crate::query::{chunks, strs};
use crate::text::{
    chars_of, cut_at, cut_pos, find, find_ch, find_char, find_text, lemma_find_bounds, lemma_rfind_bounds,
    push_all, quote, quoted, rfind_ch, rfind_char, scalar_of, scalar_text, slice, string_of, trim,
    trim_class, trim_in, trim_start_in, trim_start_ws, trim_ws, CharClass,
};

verus! {

pub open spec fn idx_view(o: Option<Vec<char>>) -> Option<Seq<char>> {
    match o {
        Some(v) => Some(v@),
        None => None,
    }
}

pub open spec fn str_opt_view(o: Option<&str>) -> Option<Seq<char>> {
    match o {
        Some(v) => Some(v@),
        None => None,
    }
}

/// The text that introduces `key` in an object: `key =`.
pub open spec fn key_pattern(key: Seq<char>) -> Seq<char> {
    key + seq![' ', '=']
}

/// The object text without surrounding whitespace and braces.
pub open spec fn object_inner(obj: Seq<char>) -> Seq<char> {
    trim(trim_in(trim(obj), CharClass::Brace))
}

/// The value that starts at `after` (the text past `key =`): up to the
/// next `,`, newline or `}`, trimmed and unquoted.
pub open spec fn value_at(after: Seq<char>) -> Seq<char> {
    let ae = trim_start_in(after, CharClass::Whitespace);
    scalar_text(ae.take(cut_at(ae, seq![',', '\n', '}'])))
}

/// The value at the key path `path` inside the object text `obj`, or its
/// component `index` where one is given.
pub open spec fn object_lookup(
    obj: Seq<char>,
    path: Seq<Seq<char>>,
    index: Option<Seq<char>>,
) -> Option<Seq<char>>
    decreases path.len(),
{
    if path.len() == 0 {
        None
    } else {
        let cleaned = object_inner(obj);
        match find(cleaned, key_pattern(path[0])) {
            None => None,
            Some(si) => {
                let value = value_at(cleaned.skip(si + path[0].len() + 2));
                if path.len() == 1 {
                    match index {
                        Some(k) => source_component(quote(value), k),
                        None => Some(value),
                    }
                } else {
                    object_lookup(value, path.skip(1), index)
                }
            },
        }
    }
}

/// Where the content of the object text `t` starts: past its first `{`.
pub open spec fn content_start(t: Seq<char>) -> int {
    match find_char(t, '{') {
        Some(p) => p + 1,
        None => 0,
    }
}

/// Where the content of the object text `t` ends: at its last `}`.
pub open spec fn content_end(t: Seq<char>) -> int {
    match rfind_char(t, '}') {
        Some(c) => if c >= content_start(t) {
            c
        } else {
            t.len() as int
        },
        None => t.len() as int,
    }
}

/// The object text `obj` with the value at the key path `path` replaced by
/// `v` quoted (or, where `index` is given, by that value with its component
/// `index` set to `v`). Only the value's own text changes: the braces, the
/// other keys and the whitespace before the value are kept.
pub open spec fn object_update(
    obj: Seq<char>,
    path: Seq<Seq<char>>,
    v: Seq<char>,
    index: Option<Seq<char>>,
) -> Result<Seq<char>, TvError>
    decreases path.len(),
{
    if path.len() == 0 {
        Err(TvError::EmptyPath)
    } else {
        let t = trim(obj);
        let open = content_start(t);
        let close = content_end(t);
        let content = t.subrange(open, close);
        let pat = key_pattern(path[0]);
        match find(content, pat) {
            None => Err(TvError::KeyNotFound),
            Some(si) => {
                let after = content.skip(si + pat.len());
                let ve = cut_at(after, seq!['\n', ',']);
                let ws = ve - trim_start_in(after.take(ve), CharClass::Whitespace).len();
                let old = after.subrange(ws, ve);
                let formatted = if path.len() > 1 {
                    object_update(scalar_text(old), path.skip(1), v, index)
                } else {
                    match index {
                        Some(k) => Ok(source_updated(old, k, v)),
                        None => Ok(quote(v)),
                    }
                };
                match formatted {
                    Err(e) => Err(e),
                    Ok(f) => Ok(
                        t.take(open) + content.take(si) + pat + after.take(ws) + f + after.skip(ve)
                            + t.skip(close),
                    ),
                }
            },
        }
    }
}

/// `key =`.
fn key_pattern_of(key: &Vec<char>) -> (r: Vec<char>)
    ensures
        r@ == key_pattern(key@),
{
    let mut r = Vec::new();
    push_all(&mut r, key);
    r.push(' ');
    r.push('=');
    assert(r@ =~= key_pattern(key@));
    r
}

/// The value at the text `after`.
fn value_at_of(after: &Vec<char>) -> (r: Vec<char>)
    ensures
        r@ == value_at(after@),
{
    let ae = trim_start_ws(after);
    let stops = vec![',', '\n', '}'];
    assert(stops@ =~= seq![',', '\n', '}']);
    let e = cut_pos(&ae, &stops);
    let v = slice(&ae, 0, e);
    scalar_of(&v)
}

/// The value at `path[k..]` inside `obj`.
pub fn lookup_in(obj: &Vec<char>, path: &Vec<Vec<char>>, k: usize, index: &Option<Vec<char>>) -> (r:
    Option<Vec<char>>)
    requires
        k <= path@.len(),
    ensures
        idx_view(r) == object_lookup(obj@, chunks(path@).skip(k as int), idx_view(*index)),
    decreases path@.len() - k,
{
    let ghost p = chunks(path@).skip(k as int);
    if k == path.len() {
        return None;
    }
    assert(p[0] == path@[k as int]@);
    assert(p.skip(1) =~= chunks(path@).skip(k + 1));
    let t = trim_ws(obj);
    let u = trim_class(&t, CharClass::Brace);
    let cleaned = trim_ws(&u);
    let pat = key_pattern_of(&path[k]);
    let n = cleaned.len();
    proof {
        lemma_find_bounds(cleaned@, pat@);
    }
    match find_text(&cleaned, &pat) {
        None => None,
        Some(si) => {
            let after = slice(&cleaned, si + pat.len(), cleaned.len());
            assert(after@ =~= cleaned@.skip(si + path@[k as int]@.len() + 2));
            let value = value_at_of(&after);
            if k + 1 == path.len() {
                match index {
                    Some(key) => {
                        let q = quoted(&value);
                        component_of(&q, key)
                    },
                    None => Some(value),
                }
            } else {
                lookup_in(&value, path, k + 1, index)
            }
        },
    }
}

/// The object text `obj` with the value at `path[k..]` replaced.
pub fn update_in(
    obj: &Vec<char>,
    path: &Vec<Vec<char>>,
    k: usize,
    v: &Vec<char>,
    index: &Option<Vec<char>>,
) -> (r: Result<Vec<char>, TvError>)
    requires
        k <= path@.len(),
    ensures
        match object_update(obj@, chunks(path@).skip(k as int), v@, idx_view(*index)) {
            Ok(t) => r matches Ok(x) && x@ == t,
            Err(e) => r == Err::<Vec<char>, TvError>(e),
        },
    decreases path@.len() - k,
{
    let ghost p = chunks(path@).skip(k as int);
    if k == path.len() {
        return Err(TvError::EmptyPath);
    }
    assert(p[0] == path@[k as int]@);
    assert(p.skip(1) =~= chunks(path@).skip(k + 1));
    let t = trim_ws(obj);
    let tl = t.len();
    proof {
        lemma_find_bounds(t@, seq!['{']);
        lemma_rfind_bounds(t@, '}');
    }
    let open: usize = match find_ch(&t, '{') {
        Some(o) => o + 1,
        None => 0,
    };
    let close: usize = match rfind_ch(&t, '}') {
        Some(c) => if c >= open {
            c
        } else {
            t.len()
        },
        None => t.len(),
    };
    assert(open == content_start(t@));
    assert(close == content_end(t@));
    let content = slice(&t, open, close);
    let pat = key_pattern_of(&path[k]);
    let cl = content.len();
    proof {
        lemma_find_bounds(content@, pat@);
    }
    match find_text(&content, &pat) {
        None => Err(TvError::KeyNotFound),
        Some(si) => {
            let after = slice(&content, si + pat.len(), content.len());
            let stops = vec!['\n', ','];
            assert(stops@ =~= seq!['\n', ',']);
            let ve = cut_pos(&after, &stops);
            let head = slice(&after, 0, ve);
            let rest = trim_start_ws(&head);
            let ws = ve - rest.len();
            let old = slice(&after, ws, ve);
            let formatted = if k + 1 < path.len() {
                let inner = scalar_of(&old);
                update_in(&inner, path, k + 1, v, index)
            } else {
                match index {
                    Some(key) => Ok(updated_of(&old, key, v)),
                    None => Ok(quoted(v)),
                }
            };
            match formatted {
                Err(e) => Err(e),
                Ok(f) => {
                    let mut r = slice(&t, 0, open);
                    push_all(&mut r, &slice(&content, 0, si));
                    push_all(&mut r, &pat);
                    push_all(&mut r, &slice(&after, 0, ws));
                    push_all(&mut r, &f);
                    push_all(&mut r, &slice(&after, ve, after.len()));
                    push_all(&mut r, &slice(&t, close, t.len()));
                    proof {
                        assert(after@ =~= content@.skip(si + pat@.len()));
                        assert(content@.take(si as int) =~= content@.subrange(0, si as int));
                    }
                    Ok(r)
                },
            }
        },
    }
}

/// The path segments as character vectors.
pub fn path_chars(path: &[String]) -> (r: Vec<Vec<char>>)
    ensures
        chunks(r@) == strs(path@),
{
    let mut r: Vec<Vec<char>> = Vec::new();
    let mut i: usize = 0;
    while i < path.len()
        invariant
            i <= path@.len(),
            chunks(r@) =~= strs(path@).take(i as int),
        decreases path.len() - i,
    {
        let c = chars_of(path[i].as_str());
        let ghost old_r = r@;
        r.push(c);
        assert(chunks(r@) =~= chunks(old_r).push(c@));
        i += 1;
    }
    assert(strs(path@).take(path@.len() as int) =~= strs(path@));
    r
}

fn index_chars(index: Option<&str>) -> (r: Option<Vec<char>>)
    ensures
        idx_view(r) == str_opt_view(index),
{
    match index {
        Some(s) => Some(chars_of(s)),
        None => None,
    }
}

/// The value at the key path `attr_path` inside the object literal text
/// `object_str`, unquoted, or its source component `index` where one is
/// given. `Ok(None)` where a key is missing or the path is empty.
pub fn extract_from_object_string(
    object_str: &str,
    attr_path: &[String],
    index: Option<&str>,
) -> (r: Result<Option<String>, TvError>)
    ensures
        r matches Ok(o) && crate::codec::opt_view(o) == object_lookup(
            object_str@,
            strs(attr_path@),
            str_opt_view(index),
        ),
{
    let obj = chars_of(object_str);
    let path = path_chars(attr_path);
    let idx = index_chars(index);
    assert(chunks(path@).skip(0) =~= chunks(path@));
    match lookup_in(&obj, &path, 0, &idx) {
        Some(v) => Ok(Some(string_of(&v))),
        None => Ok(None),
    }
}

/// The object literal text `object_str` with the value at the key path
/// `attr_path` set to `new_value` (quoted), or, where `index` is given, with
/// that value's source component `index` set to `new_value`. Fails with
/// `KeyNotFound` where a key is missing (no key is ever added) and with
/// `EmptyPath` on an empty path.
pub fn update_in_object_string(
    object_str: &str,
    attr_path: &[String],
    new_value: &str,
    index: Option<&str>,
) -> (r: Result<String, TvError>)
    ensures
        match object_update(object_str@, strs(attr_path@), new_value@, str_opt_view(index)) {
            Ok(t) => r matches Ok(x) && x@ == t,
            Err(e) => r == Err::<String, TvError>(e),
        },
{
    let obj = chars_of(object_str);
    let path = path_chars(attr_path);
    let v = chars_of(new_value);
    let idx = index_chars(index);
    assert(chunks(path@).skip(0) =~= chunks(path@));
    match update_in(&obj, &path, 0, &v, &idx) {
        Ok(t) => Ok(string_of(&t)),
        Err(e) => Err(e),
    }
}

} // verus!
