//! Matching a scan query against documents: every selected top-level block
//! whose nested block path resolves, and whose attribute (if one is asked
//! for) exists and passes the filter, gives one match carrying its label.
use vstd::prelude::*;

use hcl_edit::structure::Body;

use crate::codec::{component_of, source_component};
use crate::document::{
    attribute_at, block_at, block_body, body_items, body_len, node_body, node_value,
    parse_document, parsed_items, Node,
};
use crate::error::TvError;
use crate::navigate::{first, first_from, keyed, selects};
use crate::object::{idx_view, path_chars};
use crate::query::{
    chunks, parse_scan_query, scan_query_of, strs, AttributeFilter, FilterModel, ScanModel,
    ScanQuery,
};
use crate::text::{chars_of, opt_int, same_text};

verus! {

/// Whether `n` is a block with identifier `name`.
pub open spec fn named(n: Node, name: Seq<char>) -> bool {
    match n {
        Node::Block { ident, .. } => ident == name,
        Node::Attribute { .. } => false,
    }
}

pub open spec fn named_pred(name: Seq<char>) -> spec_fn(Node) -> bool {
    |n: Node| named(n, name)
}

/// The body reached from `items` through nested blocks named `names`, each
/// the first block with that identifier.
pub open spec fn descend_named(items: Seq<Node>, names: Seq<Seq<char>>) -> Option<Seq<Node>>
    decreases names.len(),
{
    if names.len() == 0 {
        Some(items)
    } else {
        match first(items, named_pred(names[0])) {
            None => None,
            Some(i) => descend_named(node_body(items[i]), names.skip(1)),
        }
    }
}

/// Whether the value text `value` passes the filter: its source component
/// `f.attribute` equals `f.value` exactly.
pub open spec fn filter_passes(value: Seq<char>, f: FilterModel) -> bool {
    source_component(value, f.attribute) == Some(f.value)
}

/// Whether `n` is an attribute with key `a` whose value passes the filter, if any.
pub open spec fn passes(n: Node, a: Seq<char>, filter: Option<FilterModel>) -> bool {
    keyed(n, a) && match filter {
        None => true,
        Some(f) => filter_passes(node_value(n), f),
    }
}

pub open spec fn passes_pred(a: Seq<char>, filter: Option<FilterModel>) -> spec_fn(Node) -> bool {
    |n: Node| passes(n, a, filter)
}

/// Whether the top-level structure `n` matches the scan query `m`.
pub open spec fn block_hit(n: Node, m: ScanModel) -> bool {
    selects(n, m.block_type, m.block_label) && match descend_named(
        node_body(n),
        m.nested_blocks,
    ) {
        None => false,
        Some(cur) => match m.attribute {
            None => true,
            Some(a) => first(cur, passes_pred(a, m.filter)) is Some,
        },
    }
}

/// The first label of a block, empty where it has none.
pub open spec fn label_text(n: Node) -> Seq<char> {
    match n {
        Node::Block { label: Some(l), .. } => l,
        _ => Seq::empty(),
    }
}

/// The labels of the top-level structures of `items` that match `m`, in order.
pub open spec fn hits(items: Seq<Node>, m: ScanModel) -> Seq<Seq<char>>
    decreases items.len(),
{
    if items.len() == 0 {
        Seq::empty()
    } else {
        hits(items.drop_last(), m) + if block_hit(items.last(), m) {
            seq![label_text(items.last())]
        } else {
            Seq::empty()
        }
    }
}

pub open spec fn pairs(v: Seq<(String, String)>) -> Seq<(Seq<char>, Seq<char>)> {
    v.map_values(|p: (String, String)| (p.0@, p.1@))
}

/// The matches of `m` over the documents `files` (name, text), in order;
/// `None` where one of the texts is not a well-formed document.
pub open spec fn scan_docs(files: Seq<(String, String)>, m: ScanModel) -> Option<
    Seq<(Seq<char>, Seq<char>)>,
>
    decreases files.len(),
{
    if files.len() == 0 {
        Some(Seq::empty())
    } else {
        match scan_docs(files.drop_last(), m) {
            None => None,
            Some(acc) => match parsed_items(files.last().1@) {
                None => None,
                Some(items) => Some(
                    acc + hits(items, m).map_values(|l: Seq<char>| (files.last().0@, l)),
                ),
            },
        }
    }
}

/// Whether the value text `value_str` passes `filter`: its source
/// component `filter.attribute` equals `filter.value` exactly.
pub fn matches_filter(value_str: &str, filter: &AttributeFilter) -> (r: Result<bool, TvError>)
    ensures
        r == Ok::<bool, TvError>(filter_passes(value_str@, filter@)),
{
    let v = chars_of(value_str);
    let a = chars_of(filter.attribute.as_str());
    let want = chars_of(filter.value.as_str());
    match component_of(&v, &a) {
        Some(c) => Ok(same_text(&c, &want)),
        None => Ok(false),
    }
}

/// The first block of `b` with identifier `name`.
fn named_index(b: &Body, name: &Vec<char>) -> (r: Option<usize>)
    ensures
        opt_int(r) == first(body_items(*b), named_pred(name@)),
        r matches Some(i) ==> i < body_items(*b).len() && body_items(*b)[i as int] is Block,
{
    let n = body_len(b);
    let ghost items = body_items(*b);
    let mut i: usize = 0;
    while i < n
        invariant
            n == items.len(),
            items == body_items(*b),
            i <= n,
            first(items, named_pred(name@)) == first_from(items, named_pred(name@), i as int),
        decreases n - i,
    {
        match block_at(b, i) {
            Some(pair) => {
                if same_text(&chars_of(pair.0.as_str()), name) {
                    return Some(i);
                }
            },
            None => {},
        }
        i += 1;
    }
    None
}

fn descend<'a>(b: &'a Body, names: &Vec<Vec<char>>, k: usize) -> (r: Option<&'a Body>)
    requires
        k <= names@.len(),
    ensures
        match descend_named(body_items(*b), chunks(names@).skip(k as int)) {
            Some(items) => r matches Some(x) && body_items(*x) == items,
            None => r is None,
        },
    decreases names@.len() - k,
{
    if k == names.len() {
        return Some(b);
    }
    assert(chunks(names@).skip(k as int)[0] == names@[k as int]@);
    assert(chunks(names@).skip(k as int).skip(1) =~= chunks(names@).skip(k + 1));
    match named_index(b, &names[k]) {
        None => None,
        Some(i) => descend(block_body(b, i), names, k + 1),
    }
}

fn has_passing(b: &Body, a: &Vec<char>, filter: &Option<(Vec<char>, Vec<char>)>, m: Ghost<
    ScanModel,
>) -> (r: bool)
    requires
        match m@.filter {
            None => filter is None,
            Some(f) => filter matches Some(p) && p.0@ == f.attribute && p.1@ == f.value,
        },
    ensures
        r == (first(body_items(*b), passes_pred(a@, m@.filter)) is Some),
{
    let n = body_len(b);
    let ghost items = body_items(*b);
    let mut i: usize = 0;
    while i < n
        invariant
            match m@.filter {
                None => filter is None,
                Some(f) => filter matches Some(p) && p.0@ == f.attribute && p.1@ == f.value,
            },
            n == items.len(),
            items == body_items(*b),
            i <= n,
            first(items, passes_pred(a@, m@.filter)) == first_from(
                items,
                passes_pred(a@, m@.filter),
                i as int,
            ),
        decreases n - i,
    {
        match attribute_at(b, i) {
            Some(pair) => {
                let same = same_text(&chars_of(pair.0.as_str()), a);
                if !same {
                    assert(!passes(items[i as int], a@, m@.filter));
                }
                if same {
                    let ok = match filter {
                        None => true,
                        Some(f) => {
                            let v = chars_of(pair.1.as_str());
                            match component_of(&v, &f.0) {
                                Some(c) => same_text(&c, &f.1),
                                None => false,
                            }
                        },
                    };
                    assert(ok == passes(items[i as int], a@, m@.filter));
                    if ok {
                        return true;
                    }
                }
            },
            None => {
                assert(!passes(items[i as int], a@, m@.filter));
            },
        }
        i += 1;
    }
    false
}

/// The labels of the top-level blocks of `body` that match `scan_query`, in order.
pub fn matches_query(body: &Body, scan_query: &ScanQuery) -> (r: Vec<String>)
    ensures
        strs(r@) == hits(body_items(*body), scan_query@),
{
    let ghost m = scan_query@;
    let bt = chars_of(scan_query.block_type.as_str());
    let label = match &scan_query.block_label {
        Some(l) => Some(chars_of(l.as_str())),
        None => None,
    };
    let names = path_chars(scan_query.nested_blocks.as_slice());
    let attribute = match &scan_query.attribute {
        Some(a) => Some(chars_of(a.as_str())),
        None => None,
    };
    let filter = match &scan_query.filter {
        Some(f) => Some((chars_of(f.attribute.as_str()), chars_of(f.value.as_str()))),
        None => None,
    };
    assert(chunks(names@).skip(0) =~= chunks(names@));
    let n = body_len(body);
    let ghost items = body_items(*body);
    let mut out: Vec<String> = Vec::new();
    let mut i: usize = 0;
    assert(items.take(0) =~= Seq::<Node>::empty());
    while i < n
        invariant
            n == items.len(),
            items == body_items(*body),
            i <= n,
            m == scan_query@,
            bt@ == m.block_type,
            idx_view(label) == m.block_label,
            chunks(names@) == m.nested_blocks,
            idx_view(attribute) == m.attribute,
            match m.filter {
                None => filter is None,
                Some(f) => filter matches Some(p) && p.0@ == f.attribute && p.1@ == f.value,
            },
            strs(out@) == hits(items.take(i as int), m),
        decreases n - i,
    {
        let hit = match block_at(body, i) {
            None => false,
            Some(pair) => {
                let selected = same_text(&chars_of(pair.0.as_str()), &bt) && match &label {
                    None => true,
                    Some(l) => match &pair.1 {
                        Some(x) => same_text(&chars_of(x.as_str()), l),
                        None => false,
                    },
                };
                if !selected {
                    false
                } else {
                    match descend(block_body(body, i), &names, 0) {
                        None => false,
                        Some(cur) => match &attribute {
                            None => true,
                            Some(a) => has_passing(cur, a, &filter, Ghost(m)),
                        },
                    }
                }
            },
        };
        assert(chunks(names@).skip(0) =~= chunks(names@));
        assert(hit == block_hit(items[i as int], m));
        let ghost old_out = out@;
        if hit {
            let l = match block_at(body, i) {
                Some(pair) => match pair.1 {
                    Some(x) => x,
                    None => String::new(),
                },
                None => String::new(),
            };
            out.push(l);
            assert(strs(out@) =~= strs(old_out).push(l@));
        }
        proof {
            assert(items.take(i + 1).drop_last() =~= items.take(i as int));
            assert(items.take(i + 1).last() == items[i as int]);
        }
        i += 1;
    }
    assert(items.take(n as int) =~= items);
    out
}

/// The matches of the scan path `query` over the documents `files`, each a
/// name and a text: one `(name, label)` pair for each matching top-level
/// block, in file order and then block order. Fails on a malformed query,
/// and with `DocumentParse` where a text is not a well-formed document.
pub fn scan_files(query: &str, files: &Vec<(String, String)>) -> (r: Result<
    Vec<(String, String)>,
    TvError,
>)
    ensures
        match scan_query_of(query@) {
            Err(e) => r == Err::<Vec<(String, String)>, TvError>(e),
            Ok(m) => match scan_docs(files@, m) {
                None => r == Err::<Vec<(String, String)>, TvError>(TvError::DocumentParse),
                Some(out) => r matches Ok(v) && pairs(v@) == out,
            },
        },
{
    let sq = match parse_scan_query(query) {
        Ok(q) => q,
        Err(e) => {
            return Err(e);
        },
    };
    let ghost m = sq@;
    assert(scan_query_of(query@) == Ok::<ScanModel, TvError>(m));
    let mut out: Vec<(String, String)> = Vec::new();
    let mut i: usize = 0;
    assert(files@.take(0) =~= Seq::<(String, String)>::empty());
    while i < files.len()
        invariant
            i <= files@.len(),
            m == sq@,
            scan_query_of(query@) == Ok::<ScanModel, TvError>(m),
            scan_docs(files@.take(i as int), m) == Some(pairs(out@)),
        decreases files.len() - i,
    {
        proof {
            assert(files@.take(i + 1).drop_last() =~= files@.take(i as int));
            assert(files@.take(i + 1).last() == files@[i as int]);
        }
        let body = match parse_document(files[i].1.as_str()) {
            None => {
                proof {
                    assert(scan_docs(files@.take(i + 1), m) is None);
                    lemma_scan_docs_stays_none(files@, m, i + 1);
                }
                return Err(TvError::DocumentParse);
            },
            Some(b) => b,
        };
        let labels = matches_query(&body, &sq);
        let ghost old_out = out@;
        let mut j: usize = 0;
        while j < labels.len()
            invariant
                i < files@.len(),
                j <= labels@.len(),
                pairs(out@) =~= pairs(old_out) + strs(labels@).take(j as int).map_values(
                    |l: Seq<char>| (files@[i as int].0@, l),
                ),
            decreases labels.len() - j,
        {
            let name = files[i].0.clone();
            let label = labels[j].clone();
            let ghost before = out@;
            out.push((name, label));
            assert(pairs(out@) =~= pairs(before).push((name@, label@)));
            assert(strs(labels@).take(j + 1) =~= strs(labels@).take(j as int).push(label@));
            j += 1;
        }
        assert(strs(labels@).take(labels@.len() as int) =~= strs(labels@));
        i += 1;
    }
    assert(files@.take(files@.len() as int) =~= files@);
    Ok(out)
}

proof fn lemma_scan_docs_stays_none(files: Seq<(String, String)>, m: ScanModel, k: int)
    requires
        0 < k <= files.len(),
        scan_docs(files.take(k), m) is None,
    ensures
        scan_docs(files, m) is None,
    decreases files.len() - k,
{
    if k < files.len() {
        assert(files.take(k + 1).drop_last() =~= files.take(k));
        lemma_scan_docs_stays_none(files, m, k + 1);
    } else {
        assert(files.take(k) =~= files);
    }
}

} // verus!
