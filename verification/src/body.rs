//! The document tree of `hcl_edit`, as far as deleting needs it.
//!
//! The tree stays what it is: an `hcl_edit::structure::Body` with all its
//! formatting. This module gives it a model, [`body_nodes`], and the few
//! operations on it that the walk is built from. Their contracts are taken
//! from the source of `hcl_edit` and are not proved here.

use hcl_edit::structure::Body;
use hcl_edit::structure::Structure;
use vstd::prelude::*;

use crate::model::Head;
use crate::model::Node;

verus! {

/// `hcl_edit::structure::Body`: the structures of one nesting level of a
/// document, in their order.
#[verifier::external_type_specification]
#[verifier::external_body]
pub struct ExBody(Body);

/// The structures that a body holds, in their order: of an attribute its key
/// and its value as text, of a block its identifier, its labels as text and
/// the structures of its own body.
pub uninterp spec fn body_nodes(body: Body) -> Seq<Node>;

/// The texts of a list of strings.
pub open spec fn texts(strings: Seq<String>) -> Seq<Seq<char>> {
    strings.map_values(|s: String| s@)
}

/// One structure of a body as the walk reads it: its kind, its name and its
/// labels.
#[derive(Debug, PartialEq, Eq)]
pub enum Item {
    Attribute { key: String },
    Block { ident: String, labels: Vec<String> },
}

impl View for Item {
    type V = Head;

    open spec fn view(&self) -> Head {
        match self {
            Item::Attribute { key } => Head::Attribute { key: key@ },
            Item::Block { ident, labels } => Head::Block { ident: ident@, labels: texts(labels@) },
        }
    }
}

/// The heads of a body's structures, read through `Body::iter`: one item for
/// each structure, in the body's order, with the key of an attribute
/// (`Attribute::key`) or the identifier and labels of a block (`Block::ident`,
/// `Block::labels` through `BlockLabel::as_str`) copied out.
#[verifier::external_body]
pub(crate) fn items(body: &Body) -> (out: Vec<Item>)
    ensures
        out.len() == body_nodes(*body).len(),
        forall|i: int| 0 <= i < out.len() ==> (#[trigger] out[i])@ == body_nodes(*body)[i].head(),
{
    let mut out = Vec::new();
    for structure in body.iter() {
        out.push(match structure {
            Structure::Attribute(attr) => Item::Attribute { key: attr.key.as_str().to_string() },
            Structure::Block(block) => Item::Block {
                ident: block.ident.as_str().to_string(),
                labels: block.labels.iter().map(|label| label.as_str().to_string()).collect(),
            },
        });
    }
    out
}

/// `Body::remove`: takes the structure at `index` out of the body and moves
/// those behind it one place to the front. It panics when `index` is out of
/// bounds, which the precondition excludes.
#[verifier::external_body]
pub(crate) fn remove_at(body: &mut Body, index: usize)
    requires
        index < body_nodes(*old(body)).len(),
    ensures
        body_nodes(*final(body)) == body_nodes(*old(body)).remove(index as int),
{
    body.remove(index);
}

/// The nested body of the block at `index` (`Block::body`), borrowed for
/// change through `Body::get_mut` and `Structure::as_block_mut`. Whatever the
/// borrower makes of the nested body is what that block then holds; the
/// block's identifier and labels and all other structures stay as they are.
/// The call panics when `index` is out of bounds or holds an attribute, which
/// the precondition excludes.
#[verifier::external_body]
pub(crate) fn child_mut(body: &mut Body, index: usize) -> (child: &mut Body)
    requires
        index < body_nodes(*old(body)).len(),
        body_nodes(*old(body))[index as int] is Block,
    ensures
        body_nodes(*child) == body_nodes(*old(body))[index as int]->body,
        body_nodes(*final(body)) == body_nodes(*old(body)).update(
            index as int,
            body_nodes(*old(body))[index as int].with_body(body_nodes(*final(child))),
        ),
{
    &mut body.get_mut(index).and_then(Structure::as_block_mut).unwrap().body
}

} // verus!
