//! The mathematical model of a document and of a deletion path.
//!
//! A document body is a sequence of [`Node`]s, a path is a sequence of
//! [`Selector`]s. [`deleted`] says what a body looks like once a path has been
//! deleted from it; everything executable in this crate is proved against it.

use vstd::prelude::*;

verus! {

/// One step of a deletion path: a name, and labels that narrow it down.
pub struct Selector {
    pub name: Seq<char>,
    pub labels: Seq<Seq<char>>,
}

/// What a path can see of a structure without looking inside it.
pub enum Head {
    Attribute { key: Seq<char> },
    Block { ident: Seq<char>, labels: Seq<Seq<char>> },
}

/// One structure of a body: an attribute with its value, or a block with its
/// nested body. The walk never looks at a value; it is here so that a body
/// which equals another has the same values too.
pub enum Node {
    Attribute { key: Seq<char>, value: Seq<char> },
    Block { ident: Seq<char>, labels: Seq<Seq<char>>, body: Seq<Node> },
}

/// The outcome of walking one body: the body that is left, and the selectors
/// that were not consumed.
pub struct Walk {
    pub nodes: Seq<Node>,
    pub rest: Seq<Selector>,
}

impl Head {
    /// The attribute's key or the block's identifier.
    pub open spec fn name(self) -> Seq<char> {
        match self {
            Head::Attribute { key } => key,
            Head::Block { ident, .. } => ident,
        }
    }
}

impl Node {
    /// The node without its nested body.
    pub open spec fn head(self) -> Head {
        match self {
            Node::Attribute { key, .. } => Head::Attribute { key },
            Node::Block { ident, labels, .. } => Head::Block { ident, labels },
        }
    }

    /// The same node around another nested body. An attribute has none and
    /// stays as it is.
    pub open spec fn with_body(self, body: Seq<Node>) -> Node {
        match self {
            Node::Attribute { .. } => self,
            Node::Block { ident, labels, .. } => Node::Block { ident, labels, body },
        }
    }
}

/// Some label of `wanted` equals some label of `carried`.
pub open spec fn share_label(wanted: Seq<Seq<char>>, carried: Seq<Seq<char>>) -> bool {
    exists|i: int, j: int|
        #![trigger wanted[i], carried[j]]
        0 <= i < wanted.len() && 0 <= j < carried.len() && wanted[i] == carried[j]
}

impl Selector {
    /// Whether this selector deletes a structure from the body it is applied
    /// to. `last` says that no selector follows this one.
    ///
    /// An attribute goes when its key is the selector's name. A block goes
    /// when its identifier is the selector's name and either the selector has
    /// labels and shares one with the block, or it has none and is the last.
    pub open spec fn removes(self, head: Head, last: bool) -> bool {
        head.name() == self.name && match head {
            Head::Attribute { .. } => true,
            Head::Block { labels, .. } => if self.labels.len() == 0 {
                last
            } else {
                share_label(self.labels, labels)
            },
        }
    }

    /// Whether the path continues inside a structure that this selector left
    /// in place: a block with the selector's name, reached by a selector
    /// without labels.
    pub open spec fn enters(self, head: Head) -> bool {
        head is Block && head.name() == self.name && self.labels.len() == 0
    }

    /// Whether the selector leaves the node where it is.
    pub open spec fn keeps(self, last: bool) -> spec_fn(Node) -> bool {
        |node: Node| !self.removes(node.head(), last)
    }
}

/// What one level of the walk leaves of `nodes`: the nodes that `active`
/// does not remove, in their order.
pub open spec fn pruned(nodes: Seq<Node>, active: Selector, last: bool) -> Seq<Node> {
    nodes.filter(active.keeps(last))
}

/// The walk over one body with `active` as its selector and `queue` as the
/// selectors still to come.
pub open spec fn visit(nodes: Seq<Node>, active: Selector, queue: Seq<Selector>) -> Walk
    decreases nodes, 1int,
{
    walk(nodes, active, queue.len() == 0, queue)
}

/// The walk over the structures of one body, front to back.
///
/// A structure that `active` removes is dropped. A block that it enters is
/// walked with the next selector of the queue, as long as there is one; the
/// selectors which that walk did not consume go on to the structures behind
/// it. `last` is fixed for the whole body: it says whether the queue was empty
/// when the body was reached.
pub open spec fn walk(nodes: Seq<Node>, active: Selector, last: bool, queue: Seq<Selector>) -> Walk
    decreases nodes, 0int,
{
    if nodes.len() == 0 {
        Walk { nodes, rest: queue }
    } else {
        let first = nodes.first();
        let others = nodes.drop_first();
        if active.removes(first.head(), last) {
            walk(others, active, last, queue)
        } else if active.enters(first.head()) && queue.len() > 0 {
            let inner = visit(first->body, queue.first(), queue.drop_first());
            let after = walk(others, active, last, inner.rest);
            Walk { nodes: seq![first.with_body(inner.nodes)] + after.nodes, rest: after.rest }
        } else {
            let after = walk(others, active, last, queue);
            Walk { nodes: seq![first] + after.nodes, rest: after.rest }
        }
    }
}

/// The body that is left of `nodes` when `path` has been deleted from it.
pub open spec fn deleted(nodes: Seq<Node>, path: Seq<Selector>) -> Seq<Node> {
    if path.len() == 0 {
        nodes
    } else {
        visit(nodes, path.first(), path.drop_first()).nodes
    }
}

} // verus!
