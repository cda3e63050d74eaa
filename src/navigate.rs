//! Resolving a query in a document: the block, then each nested name as a
//! nested block, or, from the first name that is no nested block, a key path
//! into an inline object; reading and rewriting the value found there.
use vstd::prelude::*;

use hcl_edit::structure::Body;

use crate::codec::{component_of, opt_view, source_component, source_updated, updated_of};
use crate::document::{
    attribute_at, block_at, block_body, body_items, body_len, body_text, document_text, node_body,
    node_value, parse_document, parsed_items, put_block_body, reprint, set_attribute_value,
    take_block_body, with_body, with_value, Node,
};
use crate::error::TvError;
use crate::object::{idx_view, lookup_in, object_lookup, object_update, path_chars, update_in};
use crate::query::{chunks, parse_query, query_of, Query, QueryModel};
use crate::text::{
    chars_of, lemma_unquote_quote, quote, quoted, same_text, scalar_of, scalar_text, string_of,
};

verus! {

/// Whether `n` is a block whose identifier or first label is `name`.
pub open spec fn nests(n: Node, name: Seq<char>) -> bool {
    match n {
        Node::Block { ident, label, .. } => ident == name || label == Some(name),
        Node::Attribute { .. } => false,
    }
}

/// Whether `n` is an attribute with key `key`.
pub open spec fn keyed(n: Node, key: Seq<char>) -> bool {
    match n {
        Node::Attribute { key: k, .. } => k == key,
        Node::Block { .. } => false,
    }
}

/// Whether `n` is a block of type `t` whose first label is `label`, where one is asked for.
pub open spec fn selects(n: Node, t: Seq<char>, label: Option<Seq<char>>) -> bool {
    match n {
        Node::Block { ident, label: l, .. } => ident == t && (label is None || l == label),
        Node::Attribute { .. } => false,
    }
}

pub open spec fn nests_pred(name: Seq<char>) -> spec_fn(Node) -> bool {
    |n: Node| nests(n, name)
}

pub open spec fn keyed_pred(key: Seq<char>) -> spec_fn(Node) -> bool {
    |n: Node| keyed(n, key)
}

pub open spec fn selects_pred(t: Seq<char>, label: Option<Seq<char>>) -> spec_fn(Node) -> bool {
    |n: Node| selects(n, t, label)
}

/// The first position at or after `i` whose structure satisfies `p`.
pub open spec fn first_from(items: Seq<Node>, p: spec_fn(Node) -> bool, i: int) -> Option<int>
    decreases items.len() - i,
{
    if i < 0 || i >= items.len() {
        None
    } else if p(items[i]) {
        Some(i)
    } else {
        first_from(items, p, i + 1)
    }
}

pub open spec fn first(items: Seq<Node>, p: spec_fn(Node) -> bool) -> Option<int> {
    first_from(items, p, 0)
}

pub proof fn lemma_first_from(items: Seq<Node>, p: spec_fn(Node) -> bool, i: int)
    requires
        0 <= i,
    ensures
        first_from(items, p, i) matches Some(j) ==> i <= j < items.len() && p(items[j]),
        first_from(items, p, i) is None ==> forall|j: int| i <= j < items.len() ==> !p(items[j]),
    decreases items.len() - i,
{
    if i < 0 || i >= items.len() {
    } else if p(items[i]) {
    } else {
        lemma_first_from(items, p, i + 1);
    }
}

/// Nothing before the first position found satisfies `p`.
pub proof fn lemma_first_from_earlier(items: Seq<Node>, p: spec_fn(Node) -> bool, i: int)
    requires
        0 <= i,
    ensures
        first_from(items, p, i) matches Some(k) ==> forall|j: int| i <= j < k ==> !p(items[j]),
    decreases items.len() - i,
{
    if i < items.len() && !p(items[i]) {
        lemma_first_from_earlier(items, p, i + 1);
    }
}

/// The first position whose structure satisfies `p` is found.
pub proof fn lemma_first_from_is(items: Seq<Node>, p: spec_fn(Node) -> bool, i: int, k: int)
    requires
        0 <= i <= k < items.len(),
        p(items[k]),
        forall|j: int| i <= j < k ==> !p(items[j]),
    ensures
        first_from(items, p, i) == Some(k),
    decreases k - i,
{
    if i < k {
        lemma_first_from_is(items, p, i + 1, k);
    }
}

/// A leaf value read as a whole (unquoted) or by its source component `index`.
pub open spec fn leaf_value(value: Seq<char>, index: Option<Seq<char>>) -> Option<Seq<char>> {
    match index {
        Some(k) => source_component(value, k),
        None => Some(scalar_text(value)),
    }
}

/// The value at the key path `path` whose first key is an attribute of the
/// body `items` and whose other keys lie inside that attribute's object text.
pub open spec fn object_attr_lookup(
    items: Seq<Node>,
    path: Seq<Seq<char>>,
    index: Option<Seq<char>>,
) -> Option<Seq<char>> {
    if path.len() == 0 {
        None
    } else {
        match first(items, keyed_pred(path[0])) {
            None => None,
            Some(j) => if path.len() == 1 {
                leaf_value(node_value(items[j]), index)
            } else {
                object_lookup(node_value(items[j]), path.skip(1), index)
            },
        }
    }
}

/// The key path that starts at the nested name `k`: the remaining names, then the attribute.
pub open spec fn object_path(q: QueryModel, k: int) -> Seq<Seq<char>> {
    q.nested_blocks.skip(k).push(q.attribute)
}

/// What a read finds in a block body from nested name `k` on: `Some` of the
/// answer, or `None` where the names resolve to nested blocks and the
/// attribute is not in the last of them.
pub open spec fn lookup_in_body(items: Seq<Node>, q: QueryModel, k: int) -> Option<
    Option<Seq<char>>,
>
    decreases q.nested_blocks.len() - k,
{
    if 0 <= k < q.nested_blocks.len() {
        match first(items, nests_pred(q.nested_blocks[k])) {
            Some(i) => lookup_in_body(node_body(items[i]), q, k + 1),
            None => Some(object_attr_lookup(items, object_path(q, k), q.index)),
        }
    } else {
        match first(items, keyed_pred(q.attribute)) {
            Some(j) => Some(leaf_value(node_value(items[j]), q.index)),
            None => None,
        }
    }
}

/// What a read of `q` finds in the document `items`: in the first block
/// the query selects, and there only.
pub open spec fn get_items(items: Seq<Node>, q: QueryModel) -> Option<Seq<char>> {
    match first(items, selects_pred(q.block_type, q.block_label)) {
        None => None,
        Some(i) => match lookup_in_body(node_body(items[i]), q, 0) {
            Some(r) => r,
            None => None,
        },
    }
}

/// `items` with the attribute at `j` given the expression `text`.
pub open spec fn install(items: Seq<Node>, j: int, text: Seq<char>) -> Result<Seq<Node>, TvError> {
    match reprint(text) {
        Some(p) => Ok(items.update(j, with_value(items[j], p))),
        None => Err(TvError::ExpressionParse),
    }
}

/// The new text of a leaf value: `v` quoted, or, where `index` is given,
/// the old value with its source component `index` set to `v`.
pub open spec fn leaf_text(old: Seq<char>, index: Option<Seq<char>>, v: Seq<char>) -> Seq<char> {
    match index {
        Some(k) => source_updated(old, k, v),
        None => quote(v),
    }
}

/// The body `items` with the value at the key path `path` (an attribute of
/// `items`, then keys inside its object text) set to `v`.
pub open spec fn object_attr_update(
    items: Seq<Node>,
    path: Seq<Seq<char>>,
    v: Seq<char>,
    index: Option<Seq<char>>,
) -> Result<Seq<Node>, TvError> {
    if path.len() == 0 {
        Err(TvError::EmptyPath)
    } else {
        match first(items, keyed_pred(path[0])) {
            None => Err(TvError::AttributeNotFound),
            Some(j) => {
                let text = if path.len() == 1 {
                    Ok(leaf_text(node_value(items[j]), index, v))
                } else {
                    object_update(node_value(items[j]), path.skip(1), v, index)
                };
                match text {
                    Err(e) => Err(e),
                    Ok(t) => install(items, j, t),
                }
            },
        }
    }
}

/// The block body `items` with the value that `q` addresses from nested
/// name `k` on set to `v`.
pub open spec fn set_in_items(items: Seq<Node>, q: QueryModel, k: int, v: Seq<char>) -> Result<
    Seq<Node>,
    TvError,
>
    decreases q.nested_blocks.len() - k,
{
    if 0 <= k < q.nested_blocks.len() {
        match first(items, nests_pred(q.nested_blocks[k])) {
            Some(i) => match set_in_items(node_body(items[i]), q, k + 1, v) {
                Ok(nb) => Ok(items.update(i, with_body(items[i], nb))),
                Err(e) => Err(e),
            },
            None => object_attr_update(items, object_path(q, k), v, q.index),
        }
    } else {
        match first(items, keyed_pred(q.attribute)) {
            None => Err(TvError::AttributeNotFound),
            Some(j) => install(items, j, leaf_text(node_value(items[j]), q.index, v)),
        }
    }
}

/// The document `items` with the value that `q` addresses set to `v`: in
/// the first selected block only.
pub open spec fn set_items(items: Seq<Node>, q: QueryModel, v: Seq<char>) -> Result<
    Seq<Node>,
    TvError,
> {
    match first(items, selects_pred(q.block_type, q.block_label)) {
        None => Err(TvError::BlockNotFound),
        Some(i) => match set_in_items(node_body(items[i]), q, 0, v) {
            Ok(nb) => Ok(items.update(i, with_body(items[i], nb))),
            Err(e) => Err(e),
        },
    }
}

/// Writing a value to an attribute that exists in the first block a query
/// selects (no nested names, no index), then reading it back, gives the
/// value: where the value neither starts nor ends with a quote, and the
/// document prints the written string literal as written.
pub proof fn lemma_set_then_get(items: Seq<Node>, q: QueryModel, v: Seq<char>)
    requires
        q.nested_blocks.len() == 0,
        q.index is None,
        first(items, selects_pred(q.block_type, q.block_label)) matches Some(i) && first(
            node_body(items[i]),
            keyed_pred(q.attribute),
        ) is Some,
        reprint(quote(v)) == Some(quote(v)),
        v.len() == 0 || (v[0] != '"' && v.last() != '"'),
    ensures
        set_items(items, q, v) matches Ok(new) && get_items(new, q) == Some(v),
{
    let sel = selects_pred(q.block_type, q.block_label);
    let i = first(items, sel)->0;
    lemma_first_from(items, sel, 0);
    lemma_first_from_earlier(items, sel, 0);
    let body = node_body(items[i]);
    let kp = keyed_pred(q.attribute);
    let j = first(body, kp)->0;
    lemma_first_from(body, kp, 0);
    lemma_first_from_earlier(body, kp, 0);
    let nb = body.update(j, with_value(body[j], quote(v)));
    let new = items.update(i, with_body(items[i], nb));
    assert(set_in_items(body, q, 0, v) == Ok::<Seq<Node>, TvError>(nb));
    assert(set_items(items, q, v) == Ok::<Seq<Node>, TvError>(new));
    assert forall|m: int| 0 <= m < i implies !sel(new[m]) by {
        assert(!sel(items[m]));
    }
    assert(sel(new[i]));
    lemma_first_from_is(new, sel, 0, i);
    assert(node_body(new[i]) == nb);
    assert forall|m: int| 0 <= m < j implies !kp(nb[m]) by {
        assert(!kp(body[m]));
    }
    assert(kp(nb[j]));
    lemma_first_from_is(nb, kp, 0, j);
    lemma_unquote_quote(v);
    assert(lookup_in_body(nb, q, 0) == Some(Some(v)));
}

/// A query with its parts as character vectors.
struct Parts {
    block_type: Vec<char>,
    label: Option<Vec<char>>,
    names: Vec<Vec<char>>,
    attribute: Vec<char>,
    index: Option<Vec<char>>,
}

impl View for Parts {
    type V = QueryModel;

    closed spec fn view(&self) -> QueryModel {
        QueryModel {
            block_type: self.block_type@,
            block_label: idx_view(self.label),
            nested_blocks: chunks(self.names@),
            attribute: self.attribute@,
            index: idx_view(self.index),
        }
    }
}

fn opt_chars(o: &Option<String>) -> (r: Option<Vec<char>>)
    ensures
        idx_view(r) == opt_view(*o),
{
    match o {
        Some(s) => Some(chars_of(s.as_str())),
        None => None,
    }
}

fn parts_of(q: &Query) -> (r: Parts)
    ensures
        r@ == q@,
{
    Parts {
        block_type: chars_of(q.block_type.as_str()),
        label: opt_chars(&q.block_label),
        names: path_chars(q.nested_blocks.as_slice()),
        attribute: chars_of(q.attribute.as_str()),
        index: opt_chars(&q.index),
    }
}

/// The first structure of `b` that is a block named `name` by identifier or first label.
fn nested_index(b: &Body, name: &Vec<char>) -> (r: Option<usize>)
    ensures
        crate::text::opt_int(r) == first(body_items(*b), nests_pred(name@)),
{
    let n = body_len(b);
    let ghost items = body_items(*b);
    let mut i: usize = 0;
    while i < n
        invariant
            n == items.len(),
            items == body_items(*b),
            i <= n,
            first(items, nests_pred(name@)) == first_from(items, nests_pred(name@), i as int),
        decreases n - i,
    {
        match block_at(b, i) {
            Some(pair) => {
                let hit = same_text(&chars_of(pair.0.as_str()), name) || match &pair.1 {
                    Some(l) => same_text(&chars_of(l.as_str()), name),
                    None => false,
                };
                if hit {
                    return Some(i);
                }
            },
            None => {},
        }
        i += 1;
    }
    None
}

/// The first attribute of `b` with key `key`.
fn attr_index(b: &Body, key: &Vec<char>) -> (r: Option<usize>)
    ensures
        crate::text::opt_int(r) == first(body_items(*b), keyed_pred(key@)),
        r matches Some(j) ==> j < body_items(*b).len() && body_items(*b)[j as int] is Attribute,
{
    let n = body_len(b);
    let ghost items = body_items(*b);
    let mut i: usize = 0;
    while i < n
        invariant
            n == items.len(),
            items == body_items(*b),
            i <= n,
            first(items, keyed_pred(key@)) == first_from(items, keyed_pred(key@), i as int),
        decreases n - i,
    {
        match attribute_at(b, i) {
            Some(pair) => {
                if same_text(&chars_of(pair.0.as_str()), key) {
                    return Some(i);
                }
            },
            None => {},
        }
        i += 1;
    }
    None
}

/// The value text of the attribute at `j`.
fn value_at(b: &Body, j: usize) -> (r: Vec<char>)
    requires
        j < body_items(*b).len(),
        body_items(*b)[j as int] is Attribute,
    ensures
        r@ == node_value(body_items(*b)[j as int]),
{
    match attribute_at(b, j) {
        Some(pair) => chars_of(pair.1.as_str()),
        None => Vec::new(),
    }
}

fn leaf_of(value: &Vec<char>, index: &Option<Vec<char>>) -> (r: Option<Vec<char>>)
    ensures
        idx_view(r) == leaf_value(value@, idx_view(*index)),
{
    match index {
        Some(k) => component_of(value, k),
        None => Some(scalar_of(value)),
    }
}

/// The key path from nested name `k` on.
fn object_path_of(p: &Parts, k: usize) -> (r: Vec<Vec<char>>)
    requires
        k <= p.names@.len(),
    ensures
        chunks(r@) == object_path(p@, k as int),
{
    let mut r: Vec<Vec<char>> = Vec::new();
    let mut i: usize = k;
    while i < p.names.len()
        invariant
            k <= i <= p.names@.len(),
            chunks(r@) =~= chunks(p.names@).subrange(k as int, i as int),
        decreases p.names@.len() - i,
    {
        let c = crate::text::slice(&p.names[i], 0, p.names[i].len());
        assert(c@ =~= p.names@[i as int]@);
        let ghost old_r = r@;
        r.push(c);
        assert(chunks(r@) =~= chunks(old_r).push(c@));
        assert(chunks(p.names@).subrange(k as int, i + 1) =~= chunks(p.names@).subrange(
            k as int,
            i as int,
        ).push(c@));
        i += 1;
    }
    let a = crate::text::slice(&p.attribute, 0, p.attribute.len());
    assert(a@ =~= p.attribute@);
    let ghost old_r = r@;
    r.push(a);
    assert(chunks(r@) =~= chunks(old_r).push(a@));
    assert(chunks(p.names@).skip(k as int) =~= chunks(p.names@).subrange(
        k as int,
        p.names@.len() as int,
    ));
    assert(p@.nested_blocks == chunks(p.names@));
    assert(p@.attribute == p.attribute@);
    r
}

/// The value at the key path `attr_path` whose first key is an attribute
/// of `body` and whose other keys lie inside that attribute's object text.
pub fn navigate_object_attributes(
    body: &Body,
    attr_path: &Vec<Vec<char>>,
    index: &Option<Vec<char>>,
) -> (r: Option<Vec<char>>)
    ensures
        idx_view(r) == object_attr_lookup(body_items(*body), chunks(attr_path@), idx_view(*index)),
{
    if attr_path.len() == 0 {
        return None;
    }
    match attr_index(body, &attr_path[0]) {
        None => None,
        Some(j) => {
            let value = value_at(body, j);
            if attr_path.len() == 1 {
                leaf_of(&value, index)
            } else {
                lookup_in(&value, attr_path, 1, index)
            }
        },
    }
}

pub open spec fn opt_opt(r: Option<Option<Vec<char>>>) -> Option<Option<Seq<char>>> {
    match r {
        Some(o) => Some(idx_view(o)),
        None => None,
    }
}

fn lookup_body(b: &Body, p: &Parts, k: usize) -> (r: Option<Option<Vec<char>>>)
    requires
        k <= p.names@.len(),
    ensures
        opt_opt(r) == lookup_in_body(body_items(*b), p@, k as int),
    decreases p.names@.len() - k,
{
    if k < p.names.len() {
        proof {
            lemma_first_from(body_items(*b), nests_pred(p@.nested_blocks[k as int]), 0);
        }
        match nested_index(b, &p.names[k]) {
            Some(i) => {
                let child = block_body(b, i);
                lookup_body(child, p, k + 1)
            },
            None => {
                let path = object_path_of(p, k);
                Some(navigate_object_attributes(b, &path, &p.index))
            },
        }
    } else {
        match attr_index(b, &p.attribute) {
            Some(j) => {
                let value = value_at(b, j);
                Some(leaf_of(&value, &p.index))
            },
            None => None,
        }
    }
}

fn selects_block(b: &Body, i: usize, p: &Parts) -> (r: bool)
    requires
        i < body_items(*b).len(),
    ensures
        r == selects(body_items(*b)[i as int], p@.block_type, p@.block_label),
{
    match block_at(b, i) {
        Some(pair) => {
            same_text(&chars_of(pair.0.as_str()), &p.block_type) && match &p.label {
                None => true,
                Some(l) => match &pair.1 {
                    Some(x) => same_text(&chars_of(x.as_str()), l),
                    None => false,
                },
            }
        },
        None => false,
    }
}

/// The value that `query` addresses in the document `body`: unquoted, or
/// its source component where the query has an index. `None` where the
/// block, a key or the attribute is missing.
pub fn get_in_document(body: &Body, query: &Query) -> (r: Option<String>)
    ensures
        opt_view(r) == get_items(body_items(*body), query@),
{
    let p = parts_of(query);
    proof {
        lemma_first_from(body_items(*body), selects_pred(p@.block_type, p@.block_label), 0);
    }
    match first_selected(body, &p) {
        None => None,
        Some(i) => {
            let child = block_body(body, i);
            match lookup_body(child, &p, 0) {
                Some(Some(v)) => Some(string_of(&v)),
                _ => None,
            }
        },
    }
}

/// Gives the attribute at `j` the expression `text`.
fn install_text(b: &mut Body, j: usize, text: &Vec<char>) -> (r: Result<(), TvError>)
    requires
        j < body_items(*old(b)).len(),
        body_items(*old(b))[j as int] is Attribute,
    ensures
        match install(body_items(*old(b)), j as int, text@) {
            Ok(items) => r is Ok && body_items(*final(b)) == items,
            Err(e) => r == Err::<(), TvError>(e) && body_items(*final(b)) == body_items(*old(b)),
        },
{
    let s = string_of(text);
    if set_attribute_value(b, j, s.as_str()) {
        Ok(())
    } else {
        Err(TvError::ExpressionParse)
    }
}

fn leaf_text_of(old: &Vec<char>, index: &Option<Vec<char>>, v: &Vec<char>) -> (r: Vec<char>)
    ensures
        r@ == leaf_text(old@, idx_view(*index), v@),
{
    match index {
        Some(k) => updated_of(old, k, v),
        None => quoted(v),
    }
}

/// Sets the value at the key path `attr_path` (an attribute of `body`, then
/// keys inside its object text) to `new_value`, or its source component
/// `index` where one is given. Fails where the attribute or a key is missing.
pub fn update_object_attribute(
    body: &mut Body,
    attr_path: &Vec<Vec<char>>,
    new_value: &Vec<char>,
    index: &Option<Vec<char>>,
) -> (r: Result<(), TvError>)
    ensures
        match object_attr_update(
            body_items(*old(body)),
            chunks(attr_path@),
            new_value@,
            idx_view(*index),
        ) {
            Ok(items) => r is Ok && body_items(*final(body)) == items,
            Err(e) => r == Err::<(), TvError>(e) && body_items(*final(body)) == body_items(
                *old(body),
            ),
        },
{
    if attr_path.len() == 0 {
        return Err(TvError::EmptyPath);
    }
    match attr_index(body, &attr_path[0]) {
        None => Err(TvError::AttributeNotFound),
        Some(j) => {
            let current = value_at(body, j);
            let text = if attr_path.len() == 1 {
                Ok(leaf_text_of(&current, index, new_value))
            } else {
                update_in(&current, attr_path, 1, new_value, index)
            };
            match text {
                Err(e) => Err(e),
                Ok(t) => install_text(body, j, &t),
            }
        },
    }
}

proof fn lemma_update_same(items: Seq<Node>, i: int)
    requires
        0 <= i < items.len(),
        items[i] is Block,
    ensures
        items.update(i, with_body(items[i], node_body(items[i]))) =~= items,
{
    assert(with_body(items[i], node_body(items[i])) == items[i]);
}

/// Sets the value that `p` addresses from nested name `k` on, in the block body `b`.
fn set_in_body(b: &mut Body, p: &Parts, k: usize, v: &Vec<char>) -> (r: Result<(), TvError>)
    requires
        k <= p.names@.len(),
    ensures
        match set_in_items(body_items(*old(b)), p@, k as int, v@) {
            Ok(items) => r is Ok && body_items(*final(b)) == items,
            Err(e) => r == Err::<(), TvError>(e) && body_items(*final(b)) == body_items(*old(b)),
        },
    decreases p.names@.len() - k,
{
    let ghost items = body_items(*b);
    if k < p.names.len() {
        proof {
            lemma_first_from(items, nests_pred(p@.nested_blocks[k as int]), 0);
        }
        match nested_index(b, &p.names[k]) {
            Some(i) => {
                let mut child = take_block_body(b, i);
                let r = set_in_body(&mut child, p, k + 1, v);
                put_block_body(b, i, child);
                proof {
                    let n = items[i as int];
                    assert(with_body(with_body(n, Seq::empty()), body_items(child)) == with_body(
                        n,
                        body_items(child),
                    ));
                    assert(items.update(i as int, with_body(n, Seq::empty())).update(
                        i as int,
                        with_body(n, body_items(child)),
                    ) =~= items.update(i as int, with_body(n, body_items(child))));
                    if r is Err {
                        lemma_update_same(items, i as int);
                    }
                }
                r
            },
            None => {
                let path = object_path_of(p, k);
                update_object_attribute(b, &path, v, &p.index)
            },
        }
    } else {
        match attr_index(b, &p.attribute) {
            None => Err(TvError::AttributeNotFound),
            Some(j) => {
                let current = value_at(b, j);
                let text = leaf_text_of(&current, &p.index, v);
                install_text(b, j, &text)
            },
        }
    }
}

/// The first block that `p` selects.
fn first_selected(b: &Body, p: &Parts) -> (r: Option<usize>)
    ensures
        crate::text::opt_int(r) == first(body_items(*b), selects_pred(p@.block_type, p@.block_label)),
{
    let n = body_len(b);
    let ghost items = body_items(*b);
    let mut i: usize = 0;
    while i < n
        invariant
            n == items.len(),
            items == body_items(*b),
            i <= n,
            first(items, selects_pred(p@.block_type, p@.block_label)) == first_from(
                items,
                selects_pred(p@.block_type, p@.block_label),
                i as int,
            ),
        decreases n - i,
    {
        if selects_block(b, i, p) {
            return Some(i);
        }
        i += 1;
    }
    None
}

/// Sets the value that `query` addresses in the document `body` to `value`
/// (or its source component, where the query has an index), in the first
/// block that the query selects. Fails with `BlockNotFound`,
/// `AttributeNotFound` or `KeyNotFound` where the target is missing (a
/// missing query parameter of a source string is added instead), and with
/// `ExpressionParse` where the new value text is no expression; on failure
/// the document is unchanged.
pub fn set_in_document(body: &mut Body, query: &Query, value: &str) -> (r: Result<(), TvError>)
    ensures
        match set_items(body_items(*old(body)), query@, value@) {
            Ok(items) => r is Ok && body_items(*final(body)) == items,
            Err(e) => r == Err::<(), TvError>(e) && body_items(*final(body)) == body_items(
                *old(body),
            ),
        },
{
    let p = parts_of(query);
    let v = chars_of(value);
    let ghost items = body_items(*body);
    proof {
        lemma_first_from(items, selects_pred(p@.block_type, p@.block_label), 0);
    }
    match first_selected(body, &p) {
        None => Err(TvError::BlockNotFound),
        Some(i) => {
            let mut child = take_block_body(body, i);
            let r = set_in_body(&mut child, &p, 0, &v);
            put_block_body(body, i, child);
            proof {
                let n = items[i as int];
                assert(with_body(with_body(n, Seq::empty()), body_items(child)) == with_body(
                    n,
                    body_items(child),
                ));
                assert(items.update(i as int, with_body(n, Seq::empty())).update(
                    i as int,
                    with_body(n, body_items(child)),
                ) =~= items.update(i as int, with_body(n, body_items(child))));
                if r is Err {
                    lemma_update_same(items, i as int);
                }
            }
            r
        },
    }
}

/// Reads the value that the path `query` addresses in the document text
/// `content`. Fails on a malformed query (`TooShort`, `UnclosedBracket`)
/// and on a malformed document (`DocumentParse`); a missing value is
/// `Ok(None)`.
pub fn get_value(query: &str, content: &str) -> (r: Result<Option<String>, TvError>)
    ensures
        match query_of(query@) {
            Err(e) => r == Err::<Option<String>, TvError>(e),
            Ok(m) => match parsed_items(content@) {
                None => r == Err::<Option<String>, TvError>(TvError::DocumentParse),
                Some(items) => r matches Ok(o) && opt_view(o) == get_items(items, m),
            },
        },
{
    let q = match parse_query(query) {
        Ok(q) => q,
        Err(e) => {
            return Err(e);
        },
    };
    match parse_document(content) {
        None => Err(TvError::DocumentParse),
        Some(body) => Ok(get_in_document(&body, &q)),
    }
}

/// Sets the value that the path `query` addresses in the document text
/// `content` to `value`, and returns the document's new text. Fails on a
/// malformed query or document, and where `set_in_document` fails; the
/// text returned is the printed form of the rewritten document.
pub fn set_value(query: &str, value: &str, content: &str) -> (r: Result<String, TvError>)
    ensures
        match query_of(query@) {
            Err(e) => r == Err::<String, TvError>(e),
            Ok(m) => match parsed_items(content@) {
                None => r == Err::<String, TvError>(TvError::DocumentParse),
                Some(items) => match set_items(items, m, value@) {
                    Ok(new) => r matches Ok(t) && exists|b: Body|
                        body_items(b) == new && t@ == body_text(b),
                    Err(e) => r == Err::<String, TvError>(e),
                },
            },
        },
{
    let q = match parse_query(query) {
        Ok(q) => q,
        Err(e) => {
            return Err(e);
        },
    };
    match parse_document(content) {
        None => Err(TvError::DocumentParse),
        Some(body) => {
            let mut body = body;
            match set_in_document(&mut body, &q, value) {
                Ok(()) => {
                    let t = document_text(&body);
                    assert(body_items(body) == body_items(body) && t@ == body_text(body));
                    Ok(t)
                },
                Err(e) => Err(e),
            }
        },
    }
}

} // verus!
