//! The document tree, kept in hcl_edit's `Body`, and what the library reads
//! of it: each structure is a block (identifier, first label, body) or an
//! attribute (key, value expression text).
use vstd::prelude::*;

use hcl_edit::expr::Expression;
use hcl_edit::structure::{BlockLabel, Body, Structure};

use crate::codec::opt_view;

verus! {

#[verifier::external_type_specification]
#[verifier::external_body]
pub struct ExBody(Body);

/// One structure of a document body.
pub enum Node {
    Block { ident: Seq<char>, label: Option<Seq<char>>, body: Seq<Node> },
    Attribute { key: Seq<char>, value: Seq<char> },
}

/// The structures of a body, in order.
pub uninterp spec fn body_items(b: Body) -> Seq<Node>;

/// The structures of the document parsed from `text`; `None` where `text`
/// is not a well-formed document.
pub uninterp spec fn parsed_items(text: Seq<char>) -> Option<Seq<Node>>;

/// The text of the expression parsed from `text`, as the document prints
/// it; `None` where `text` is not a well-formed expression.
pub uninterp spec fn reprint(text: Seq<char>) -> Option<Seq<char>>;

/// The text of a document as it prints.
pub uninterp spec fn body_text(b: Body) -> Seq<char>;

pub open spec fn node_body(n: Node) -> Seq<Node> {
    match n {
        Node::Block { body, .. } => body,
        Node::Attribute { .. } => Seq::empty(),
    }
}

pub open spec fn node_value(n: Node) -> Seq<char> {
    match n {
        Node::Attribute { value, .. } => value,
        Node::Block { .. } => Seq::empty(),
    }
}

/// `n` with its body replaced by `body`, where `n` is a block.
pub open spec fn with_body(n: Node, body: Seq<Node>) -> Node {
    match n {
        Node::Block { ident, label, .. } => Node::Block { ident, label, body },
        Node::Attribute { .. } => n,
    }
}

/// `n` with its value replaced by `value`, where `n` is an attribute.
pub open spec fn with_value(n: Node, value: Seq<char>) -> Node {
    match n {
        Node::Attribute { key, .. } => Node::Attribute { key, value },
        Node::Block { .. } => n,
    }
}

/// Relies on `Body::from_str` (hcl_edit's `parser::parse_body`): the
/// document parsed from `text`, which depends on `text` alone.
#[verifier::external_body]
pub(crate) fn parse_document(text: &str) -> (r: Option<Body>)
    ensures
        match parsed_items(text@) {
            Some(items) => r matches Some(b) && body_items(b) == items,
            None => r is None,
        },
{
    text.parse::<Body>().ok()
}

/// Relies on `Body::len`: the number of structures.
#[verifier::external_body]
pub(crate) fn body_len(b: &Body) -> (r: usize)
    ensures
        r == body_items(*b).len(),
{
    b.len()
}

/// Relies on `Body::get` and `Structure::as_block`: the identifier and the
/// first label of the block at `i`, `None` where an attribute stands there.
#[verifier::external_body]
pub(crate) fn block_at(b: &Body, i: usize) -> (r: Option<(String, Option<String>)>)
    requires
        i < body_items(*b).len(),
    ensures
        match body_items(*b)[i as int] {
            Node::Block { ident, label, .. } => r matches Some(p) && p.0@ == ident && opt_view(p.1)
                == label,
            Node::Attribute { .. } => r is None,
        },
{
    match b.get(i).and_then(Structure::as_block) {
        Some(block) => Some((
            block.ident.as_str().to_string(),
            block.labels.first().map(BlockLabel::as_str).map(str::to_string),
        )),
        None => None,
    }
}

/// Relies on `Body::get`, `Structure::as_attribute` and the `Display` of
/// `Expression`: the key of the attribute at `i` and the text of its value,
/// `None` where a block stands there.
#[verifier::external_body]
pub(crate) fn attribute_at(b: &Body, i: usize) -> (r: Option<(String, String)>)
    requires
        i < body_items(*b).len(),
    ensures
        match body_items(*b)[i as int] {
            Node::Attribute { key, value } => r matches Some(p) && p.0@ == key && p.1@ == value,
            Node::Block { .. } => r is None,
        },
{
    match b.get(i).and_then(Structure::as_attribute) {
        Some(attr) => Some((attr.key.as_str().to_string(), attr.value.to_string())),
        None => None,
    }
}

/// Relies on `Body::get` and `Structure::as_block`: the body of the block at `i`.
#[verifier::external_body]
pub(crate) fn block_body(b: &Body, i: usize) -> (r: &Body)
    requires
        i < body_items(*b).len(),
        body_items(*b)[i as int] is Block,
    ensures
        body_items(*r) == node_body(body_items(*b)[i as int]),
{
    &b.get(i).and_then(Structure::as_block).unwrap().body
}

/// Relies on `Body::get_mut`, `Structure::as_block_mut` and `Body`'s
/// `Default`, which holds no structures: moves the body of the block at `i`
/// out, leaving an empty one in its place.
#[verifier::external_body]
pub(crate) fn take_block_body(b: &mut Body, i: usize) -> (r: Body)
    requires
        i < body_items(*old(b)).len(),
        body_items(*old(b))[i as int] is Block,
    ensures
        body_items(r) == node_body(body_items(*old(b))[i as int]),
        body_items(*final(b)) == body_items(*old(b)).update(
            i as int,
            with_body(body_items(*old(b))[i as int], Seq::empty()),
        ),
{
    std::mem::take(&mut b.get_mut(i).and_then(Structure::as_block_mut).unwrap().body)
}

/// Relies on `Body::get_mut` and `Structure::as_block_mut`: makes `nb` the
/// body of the block at `i`.
#[verifier::external_body]
pub(crate) fn put_block_body(b: &mut Body, i: usize, nb: Body)
    requires
        i < body_items(*old(b)).len(),
        body_items(*old(b))[i as int] is Block,
    ensures
        body_items(*final(b)) == body_items(*old(b)).update(
            i as int,
            with_body(body_items(*old(b))[i as int], body_items(nb)),
        ),
{
    b.get_mut(i).and_then(Structure::as_block_mut).unwrap().body = nb;
}

/// Relies on `Expression::from_str` (hcl_edit's `parser::parse_expr`),
/// `Body::get_mut` and `Structure::as_attribute_mut`: parses `text` and makes
/// it the value of the attribute at `i`; returns whether `text` parsed.
#[verifier::external_body]
pub(crate) fn set_attribute_value(b: &mut Body, i: usize, text: &str) -> (r: bool)
    requires
        i < body_items(*old(b)).len(),
        body_items(*old(b))[i as int] is Attribute,
    ensures
        match reprint(text@) {
            Some(p) => r && body_items(*final(b)) == body_items(*old(b)).update(
                i as int,
                with_value(body_items(*old(b))[i as int], p),
            ),
            None => !r && body_items(*final(b)) == body_items(*old(b)),
        },
{
    match text.parse::<Expression>() {
        Ok(expr) => {
            b.get_mut(i).and_then(Structure::as_attribute_mut).unwrap().value = expr;
            true
        },
        Err(_) => false,
    }
}

/// Relies on the `Display` of `Body`: the document as text.
#[verifier::external_body]
pub(crate) fn document_text(b: &Body) -> (r: String)
    ensures
        r@ == body_text(*b),
{
    b.to_string()
}

} // verus!
