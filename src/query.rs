//! The path grammar: `type.label.attr["index"]`, `type.nested.key.attr`, and
//! the scan form with `*` wildcards and a `[component==value]` filter.
use vstd::prelude::*;

use crate::codec::opt_view;
use crate::error::TvError;
use crate::text::{
    chars_of, find, find_ch, find_char, find_text, lemma_find_bounds, lemma_find_char_absent,
    lemma_find_char_after, lemma_find_char_present, lemma_find_prefix, lemma_split_cons,
    lemma_split_single, lemma_unquote_wrapped, opt_int, quote, same_text, slice, split, split_on,
    string_of, trim, trim_ws, unquote,
};

verus! {

/// A parsed get/set path.
#[derive(Clone, Debug)]
pub struct Query {
    pub block_type: String,
    pub block_label: Option<String>,
    pub nested_blocks: Vec<String>,
    pub attribute: String,
    pub index: Option<String>,
}

pub struct QueryModel {
    pub block_type: Seq<char>,
    pub block_label: Option<Seq<char>>,
    pub nested_blocks: Seq<Seq<char>>,
    pub attribute: Seq<char>,
    pub index: Option<Seq<char>>,
}

pub open spec fn strs(v: Seq<String>) -> Seq<Seq<char>> {
    v.map_values(|s: String| s@)
}

pub open spec fn chunks(v: Seq<Vec<char>>) -> Seq<Seq<char>> {
    v.map_values(|p: Vec<char>| p@)
}

impl View for Query {
    type V = QueryModel;

    open spec fn view(&self) -> QueryModel {
        QueryModel {
            block_type: self.block_type@,
            block_label: opt_view(self.block_label),
            nested_blocks: strs(self.nested_blocks@),
            attribute: self.attribute@,
            index: opt_view(self.index),
        }
    }
}

/// The query for block type `block_type` whose remaining dotted segments
/// are `body`: the last is the attribute; a single one before it is the
/// label; two or more before it are nested block or key names.
pub open spec fn segments_query(
    block_type: Seq<char>,
    body: Seq<char>,
    index: Option<Seq<char>>,
) -> QueryModel {
    let parts = split(body, '.');
    let middle = parts.drop_last();
    QueryModel {
        block_type,
        block_label: if middle.len() == 1 {
            Some(middle[0])
        } else {
            None
        },
        nested_blocks: if middle.len() >= 2 {
            middle
        } else {
            Seq::empty()
        },
        attribute: parts.last(),
        index,
    }
}

/// What the path `q` parses to.
pub open spec fn query_of(q: Seq<char>) -> Result<QueryModel, TvError> {
    match find_char(q, '.') {
        None => Err(TvError::TooShort),
        Some(d) => {
            let rest = q.skip(d + 1);
            match find_char(rest, '[') {
                None => Ok(segments_query(q.take(d), rest, None)),
                Some(b) => match find_char(rest.skip(b + 1), ']') {
                    None => Err(TvError::UnclosedBracket),
                    Some(e) => Ok(
                        segments_query(
                            q.take(d),
                            rest.take(b),
                            Some(unquote(rest.subrange(b + 1, b + 1 + e))),
                        ),
                    ),
                },
            }
        },
    }
}

/// The pieces `a..b` of `v`, as strings.
fn strings_of(v: &Vec<Vec<char>>, a: usize, b: usize) -> (r: Vec<String>)
    requires
        a <= b <= v@.len(),
    ensures
        strs(r@) == chunks(v@).subrange(a as int, b as int),
{
    let mut r: Vec<String> = Vec::new();
    let mut i: usize = a;
    while i < b
        invariant
            a <= i <= b <= v@.len(),
            strs(r@) =~= chunks(v@).subrange(a as int, i as int),
        decreases b - i,
    {
        let s = string_of(&v[i]);
        let ghost old_r = r@;
        r.push(s);
        assert(strs(r@) =~= strs(old_r).push(s@));
        i += 1;
    }
    r
}

/// The position of the first `c` in `s` at or after `from`, counted from the start of `s`.
fn find_ch_after(s: &Vec<char>, c: char, from: usize) -> (r: Option<usize>)
    requires
        from <= s@.len(),
    ensures
        opt_int(r) == (match find_char(s@.skip(from as int), c) {
            Some(p) => Some(from + p),
            None => None,
        }),
        r matches Some(i) ==> from <= i < s.len(),
{
    let n = s.len();
    let tail = slice(s, from, s.len());
    assert(tail@ =~= s@.skip(from as int));
    proof {
        lemma_find_bounds(tail@, seq![c]);
    }
    match find_ch(&tail, c) {
        Some(p) => Some(from + p),
        None => None,
    }
}

/// The query for `block_type` and the dotted segments `body`.
fn build_query(block_type: &Vec<char>, body: &Vec<char>, index: Option<Vec<char>>) -> (r: Query)
    ensures
        r@ == segments_query(
            block_type@,
            body@,
            match index {
                Some(i) => Some(i@),
                None => None,
            },
        ),
{
    let parts = split_on(body, '.');
    let m = parts.len() - 1;
    let attribute = string_of(&parts[m]);
    let block_label = if m == 1 {
        Some(string_of(&parts[0]))
    } else {
        None
    };
    let nested_blocks = if m >= 2 {
        strings_of(&parts, 0, m)
    } else {
        Vec::new()
    };
    let index = match index {
        Some(i) => Some(string_of(&i)),
        None => None,
    };
    let r = Query { block_type: string_of(block_type), block_label, nested_blocks, attribute, index };
    proof {
        let ps = split(body@, '.');
        assert(chunks(parts@) == ps);
        assert(ps.drop_last() =~= chunks(parts@).subrange(0, m as int));
        assert(strs(Seq::<String>::empty()) =~= Seq::<Seq<char>>::empty());
        assert(r@.nested_blocks =~= segments_query(block_type@, body@, opt_view(r.index)).nested_blocks);
    }
    r
}

/// Parses a get/set path such as `module.vpc.source["ref"]` or
/// `terraform.required_providers.aws.version`. Fails with `TooShort` on a
/// path without a `.`, and with `UnclosedBracket` on a `[` with no `]`
/// after it. Quotes around the index are optional.
pub fn parse_query(query: &str) -> (r: Result<Query, TvError>)
    ensures
        match query_of(query@) {
            Ok(m) => r matches Ok(q) && q@ == m,
            Err(e) => r == Err::<Query, TvError>(e),
        },
{
    let q = chars_of(query);
    let d = match find_ch_after(&q, '.', 0) {
        Some(d) => d,
        None => {
            assert(q@.skip(0) =~= q@);
            return Err(TvError::TooShort);
        },
    };
    assert(q@.skip(0) =~= q@);
    let block_type = slice(&q, 0, d);
    let rest = slice(&q, d + 1, q.len());
    assert(rest@ =~= q@.skip(d + 1));
    match find_ch_after(&rest, '[', 0) {
        None => {
            assert(rest@.skip(0) =~= rest@);
            Ok(build_query(&block_type, &rest, None))
        },
        Some(b) => {
            assert(rest@.skip(0) =~= rest@);
            match find_ch_after(&rest, ']', b + 1) {
                None => Err(TvError::UnclosedBracket),
                Some(e) => {
                    let inner = slice(&rest, b + 1, e);
                    let idx = crate::text::trim_class(&inner, crate::text::CharClass::Quote);
                    let head = slice(&rest, 0, b);
                    Ok(build_query(&block_type, &head, Some(idx)))
                },
            }
        },
    }
}

/// A path `t.l.a` whose segments hold no dot, and whose label and
/// attribute hold no bracket, parses to block type `t`, label `l`,
/// attribute `a`, no nested names and no index.
pub proof fn lemma_simple_path(t: Seq<char>, l: Seq<char>, a: Seq<char>)
    requires
        !t.contains('.'),
        !l.contains('.'),
        !a.contains('.'),
        !l.contains('['),
        !a.contains('['),
    ensures
        query_of(t + seq!['.'] + l + seq!['.'] + a) == Ok::<QueryModel, TvError>(
            QueryModel {
                block_type: t,
                block_label: Some(l),
                nested_blocks: Seq::empty(),
                attribute: a,
                index: None,
            },
        ),
{
    let rest = l + seq!['.'] + a;
    let q = t + seq!['.'] + rest;
    assert(t + seq!['.'] + l + seq!['.'] + a =~= q);
    lemma_find_char_after(t, '.', rest);
    assert(q.skip(t.len() as int + 1) =~= rest);
    assert(q.take(t.len() as int) =~= t);
    assert forall|j: int| 0 <= j < rest.len() implies rest[j] != '[' by {
        if j < l.len() {
            assert(rest[j] == l[j]);
        } else if j > l.len() {
            assert(rest[j] == a[j - l.len() - 1]);
        }
    }
    lemma_find_char_absent(rest, '[');
    lemma_split_cons(l, '.', a);
    lemma_split_single(a, '.');
    let parts = split(rest, '.');
    assert(parts =~= seq![l, a]);
    assert(parts.drop_last() =~= seq![l]);
}

/// Quotes around an index are optional: `p["x"]` and `p[x]` parse alike,
/// for a path `p` with a dot and no bracket and an index `x` with no `]`;
/// both succeed, with index `x` less any quotes around it.
pub proof fn lemma_index_quotes_optional(p: Seq<char>, x: Seq<char>)
    requires
        p.contains('.'),
        !p.contains('['),
        !x.contains(']'),
    ensures
        query_of(p + seq!['[', '"'] + x + seq!['"', ']']) == query_of(p + seq!['['] + x + seq![']']),
        query_of(p + seq!['['] + x + seq![']']) matches Ok(m) && m.index == Some(unquote(x)),
{
    let y1 = seq!['[', '"'] + x + seq!['"', ']'];
    let y2 = seq!['['] + x + seq![']'];
    let q1 = p + y1;
    let q2 = p + y2;
    assert(p + seq!['[', '"'] + x + seq!['"', ']'] =~= q1);
    assert(p + seq!['['] + x + seq![']'] =~= q2);
    lemma_find_char_present(p, '.');
    lemma_find_prefix(p, y1, seq!['.']);
    lemma_find_prefix(p, y2, seq!['.']);
    let d = find_char(p, '.')->0;
    crate::text::lemma_find_bounds(p, seq!['.']);
    let r0 = p.skip(d + 1);
    assert(!r0.contains('[')) by {
        assert forall|j: int| 0 <= j < r0.len() implies r0[j] != '[' by {
            assert(r0[j] == p[d + 1 + j]);
        }
    }
    let rest1 = q1.skip(d + 1);
    let rest2 = q2.skip(d + 1);
    let t1 = seq!['"'] + x + seq!['"', ']'];
    let t2 = x + seq![']'];
    assert(rest1 =~= r0 + seq!['['] + t1);
    assert(rest2 =~= r0 + seq!['['] + t2);
    lemma_find_char_after(r0, '[', t1);
    lemma_find_char_after(r0, '[', t2);
    let b = r0.len() as int;
    assert(rest1.skip(b + 1) =~= t1);
    assert(rest2.skip(b + 1) =~= t2);
    let w = seq!['"'] + x + seq!['"'];
    assert(!w.contains(']')) by {
        assert forall|j: int| 0 <= j < w.len() implies w[j] != ']' by {
            if 0 < j < w.len() - 1 {
                assert(w[j] == x[j - 1]);
            }
        }
    }
    assert(t1 =~= w + seq![']'] + Seq::<char>::empty());
    assert(t2 =~= x + seq![']'] + Seq::<char>::empty());
    lemma_find_char_after(w, ']', Seq::<char>::empty());
    lemma_find_char_after(x, ']', Seq::<char>::empty());
    assert(rest1.subrange(b + 1, b + 1 + w.len()) =~= quote(x));
    assert(rest2.subrange(b + 1, b + 1 + x.len()) =~= x);
    assert(rest1.take(b) =~= r0);
    assert(rest2.take(b) =~= r0);
    assert(q1.take(d) =~= p.take(d));
    assert(q2.take(d) =~= p.take(d));
    lemma_unquote_wrapped(x);
}

/// A value filter of a scan query: the component `attribute` of the
/// matched value must equal `value`.
#[derive(Clone, Debug)]
pub struct AttributeFilter {
    pub attribute: String,
    pub value: String,
}

pub struct FilterModel {
    pub attribute: Seq<char>,
    pub value: Seq<char>,
}

impl View for AttributeFilter {
    type V = FilterModel;

    open spec fn view(&self) -> FilterModel {
        FilterModel { attribute: self.attribute@, value: self.value@ }
    }
}

/// What the filter text `f` parses to: split at the first `==`, else at the
/// first `=`; the name is trimmed, the value trimmed and unquoted.
pub open spec fn filter_of(f: Seq<char>) -> Result<FilterModel, TvError> {
    match find(f, seq!['=', '=']) {
        Some(p) => Ok(FilterModel { attribute: trim(f.take(p)), value: unquote(trim(f.skip(p + 2))) }),
        None => match find_char(f, '=') {
            Some(p) => Ok(
                FilterModel { attribute: trim(f.take(p)), value: unquote(trim(f.skip(p + 1))) },
            ),
            None => Err(TvError::InvalidFilter),
        },
    }
}

/// Parses a filter such as `ref=="v1.0.0"`, `ref=v1.0.0` or `url == "x"`.
/// Fails with `InvalidFilter` where there is no `=`.
pub fn parse_attribute_filter(filter_str: &str) -> (r: Result<AttributeFilter, TvError>)
    ensures
        match filter_of(filter_str@) {
            Ok(m) => r matches Ok(f) && f@ == m,
            Err(e) => r == Err::<AttributeFilter, TvError>(e),
        },
{
    let f = chars_of(filter_str);
    filter_from(&f)
}

fn filter_from(f: &Vec<char>) -> (r: Result<AttributeFilter, TvError>)
    ensures
        match filter_of(f@) {
            Ok(m) => r matches Ok(x) && x@ == m,
            Err(e) => r == Err::<AttributeFilter, TvError>(e),
        },
{
    let n = f.len();
    let eq2 = vec!['=', '='];
    assert(eq2@ =~= seq!['=', '=']);
    proof {
        lemma_find_bounds(f@, eq2@);
        lemma_find_bounds(f@, seq!['=']);
    }
    let (name, rest) = match find_text(f, &eq2) {
        Some(p) => (slice(f, 0, p), slice(f, p + 2, f.len())),
        None => match find_ch(f, '=') {
            Some(p) => (slice(f, 0, p), slice(f, p + 1, f.len())),
            None => {
                return Err(TvError::InvalidFilter);
            },
        },
    };
    let attribute = trim_ws(&name);
    let rest_t = trim_ws(&rest);
    let value = crate::text::trim_class(&rest_t, crate::text::CharClass::Quote);
    Ok(AttributeFilter { attribute: string_of(&attribute), value: string_of(&value) })
}

/// A parsed scan path.
#[derive(Clone, Debug)]
pub struct ScanQuery {
    pub block_type: String,
    /// `None` where any label matches.
    pub block_label: Option<String>,
    pub nested_blocks: Vec<String>,
    /// `None` where the block path alone is to match.
    pub attribute: Option<String>,
    pub filter: Option<AttributeFilter>,
}

pub struct ScanModel {
    pub block_type: Seq<char>,
    pub block_label: Option<Seq<char>>,
    pub nested_blocks: Seq<Seq<char>>,
    pub attribute: Option<Seq<char>>,
    pub filter: Option<FilterModel>,
}

pub open spec fn filter_view(f: Option<AttributeFilter>) -> Option<FilterModel> {
    match f {
        Some(x) => Some(x@),
        None => None,
    }
}

impl View for ScanQuery {
    type V = ScanModel;

    open spec fn view(&self) -> ScanModel {
        ScanModel {
            block_type: self.block_type@,
            block_label: opt_view(self.block_label),
            nested_blocks: strs(self.nested_blocks@),
            attribute: opt_view(self.attribute),
            filter: filter_view(self.filter),
        }
    }
}

pub open spec fn wildcard() -> Seq<char> {
    seq!['*']
}

/// The block types whose blocks carry a label: `module`, `resource`, `data`.
pub open spec fn has_labels(t: Seq<char>) -> bool {
    ||| t == seq!['m', 'o', 'd', 'u', 'l', 'e']
    ||| t == seq!['r', 'e', 's', 'o', 'u', 'r', 'c', 'e']
    ||| t == seq!['d', 'a', 't', 'a']
}

/// The scan query for the dotted path `qp` (filter already removed).
pub open spec fn scan_segments(qp: Seq<char>, filter: Option<FilterModel>) -> ScanModel {
    let parts = split(qp, '.');
    let bt = parts[0];
    let remaining = parts.skip(1);
    let labelled = has_labels(bt);
    let label: Option<Seq<char>> = if labelled && remaining.len() > 0 && remaining[0]
        != wildcard() {
        Some(remaining[0])
    } else {
        None
    };
    let cs: int = if labelled {
        1
    } else {
        0
    };
    if parts.len() == 1 {
        ScanModel {
            block_type: bt,
            block_label: None,
            nested_blocks: Seq::empty(),
            attribute: None,
            filter,
        }
    } else if cs < remaining.len() {
        let rest = remaining.skip(cs);
        if rest.last() == wildcard() {
            ScanModel {
                block_type: bt,
                block_label: None,
                nested_blocks: rest.drop_last(),
                attribute: None,
                filter,
            }
        } else {
            ScanModel {
                block_type: bt,
                block_label: label,
                nested_blocks: rest.drop_last(),
                attribute: Some(rest.last()),
                filter,
            }
        }
    } else {
        ScanModel {
            block_type: bt,
            block_label: label,
            nested_blocks: Seq::empty(),
            attribute: None,
            filter,
        }
    }
}

/// What the scan path `q` parses to. A bracketed filter, if any, is parsed
/// first; the rest is split at dots.
pub open spec fn scan_query_of(q: Seq<char>) -> Result<ScanModel, TvError> {
    match find_char(q, '[') {
        None => Ok(scan_segments(q, None)),
        Some(b) => match find_char(q.skip(b + 1), ']') {
            None => Err(TvError::UnclosedBracket),
            Some(e) => match filter_of(q.subrange(b + 1, b + 1 + e)) {
                Err(x) => Err(x),
                Ok(f) => Ok(scan_segments(q.take(b), Some(f))),
            },
        },
    }
}

fn is_wildcard(s: &Vec<char>) -> (r: bool)
    ensures
        r == (s@ == wildcard()),
{
    let w = vec!['*'];
    assert(w@ =~= wildcard());
    same_text(s, &w)
}

fn is_labelled_type(t: &Vec<char>) -> (r: bool)
    ensures
        r == has_labels(t@),
{
    let m = vec!['m', 'o', 'd', 'u', 'l', 'e'];
    let r = vec!['r', 'e', 's', 'o', 'u', 'r', 'c', 'e'];
    let d = vec!['d', 'a', 't', 'a'];
    assert(m@ =~= seq!['m', 'o', 'd', 'u', 'l', 'e']);
    assert(r@ =~= seq!['r', 'e', 's', 'o', 'u', 'r', 'c', 'e']);
    assert(d@ =~= seq!['d', 'a', 't', 'a']);
    same_text(t, &m) || same_text(t, &r) || same_text(t, &d)
}

fn build_scan(qp: &Vec<char>, filter: Option<AttributeFilter>) -> (r: ScanQuery)
    ensures
        r@ == scan_segments(qp@, filter_view(filter)),
{
    let parts = split_on(qp, '.');
    let ghost ps = split(qp@, '.');
    assert(chunks(parts@) == ps);
    let bt = string_of(&parts[0]);
    if parts.len() == 1 {
        let r = ScanQuery {
            block_type: bt,
            block_label: None,
            nested_blocks: Vec::new(),
            attribute: None,
            filter,
        };
        assert(strs(r.nested_blocks@) =~= Seq::<Seq<char>>::empty());
        return r;
    }
    let labelled = is_labelled_type(&parts[0]);
    let label = if labelled && !is_wildcard(&parts[1]) {
        Some(string_of(&parts[1]))
    } else {
        None
    };
    let cs: usize = if labelled {
        2
    } else {
        1
    };
    if cs < parts.len() {
        let last = parts.len() - 1;
        let nested = strings_of(&parts, cs, last);
        proof {
            assert(ps.skip(1).skip(cs - 1) =~= ps.subrange(cs as int, ps.len() as int));
            assert(ps.skip(1).skip(cs - 1).drop_last() =~= chunks(parts@).subrange(
                cs as int,
                last as int,
            ));
        }
        if is_wildcard(&parts[last]) {
            ScanQuery { block_type: bt, block_label: None, nested_blocks: nested, attribute: None, filter }
        } else {
            ScanQuery {
                block_type: bt,
                block_label: label,
                nested_blocks: nested,
                attribute: Some(string_of(&parts[last])),
                filter,
            }
        }
    } else {
        let r = ScanQuery {
            block_type: bt,
            block_label: label,
            nested_blocks: Vec::new(),
            attribute: None,
            filter,
        };
        assert(strs(r.nested_blocks@) =~= Seq::<Seq<char>>::empty());
        r
    }
}

/// Parses a scan path such as `module.*`, `module.vpc.source`,
/// `terraform.required_providers.aws` or `module.*.source[ref=="v1"]`.
/// Only `module`, `resource` and `data` blocks take a label segment; a
/// trailing `*` asks for the block path alone, with any label.
pub fn parse_scan_query(query: &str) -> (r: Result<ScanQuery, TvError>)
    ensures
        match scan_query_of(query@) {
            Ok(m) => r matches Ok(q) && q@ == m,
            Err(e) => r == Err::<ScanQuery, TvError>(e),
        },
{
    let q = chars_of(query);
    assert(q@.skip(0) =~= q@);
    match find_ch_after(&q, '[', 0) {
        None => Ok(build_scan(&q, None)),
        Some(b) => match find_ch_after(&q, ']', b + 1) {
            None => Err(TvError::UnclosedBracket),
            Some(e) => {
                let inner = slice(&q, b + 1, e);
                match filter_from(&inner) {
                    Err(x) => Err(x),
                    Ok(f) => {
                        let head = slice(&q, 0, b);
                        Ok(build_scan(&head, Some(f)))
                    },
                }
            },
        },
    }
}

} // verus!
