//! What holds of every walk, proved from the model alone.

use vstd::prelude::*;

use crate::model::deleted;
use crate::model::pruned;
use crate::model::visit;
use crate::model::walk;
use crate::model::Head;
use crate::model::Node;
use crate::model::Selector;
use crate::model::Walk;

verus! {

/// `rest` is what is left of `queue` after some selectors were taken from its
/// front.
pub open spec fn is_suffix(rest: Seq<Selector>, queue: Seq<Selector>) -> bool {
    rest.len() <= queue.len() && rest == queue.skip(queue.len() - rest.len())
}

/// The heads of a body's structures.
pub open spec fn heads(nodes: Seq<Node>) -> Seq<Head> {
    nodes.map_values(|node: Node| node.head())
}

/// The heads of two runs of structures, one behind the other.
pub proof fn heads_of_concat(front: Seq<Node>, back: Seq<Node>)
    ensures
        heads(front + back) == heads(front) + heads(back),
{
    assert(heads(front + back) =~= heads(front) + heads(back));
}

/// What is left of what is left of a queue is left of the queue.
pub proof fn suffix_of_suffix(inner: Seq<Selector>, middle: Seq<Selector>, queue: Seq<Selector>)
    requires
        is_suffix(inner, middle),
        is_suffix(middle, queue),
    ensures
        is_suffix(inner, queue),
{
    assert(inner =~= queue.skip(queue.len() - inner.len()));
}

/// A walk only ever takes selectors from the front of the queue: what it
/// leaves is a suffix of what it was given. Every block that the walk enters
/// costs one selector, so no selector serves two levels.
pub proof fn rest_is_suffix(nodes: Seq<Node>, active: Selector, last: bool, queue: Seq<Selector>)
    ensures
        is_suffix(walk(nodes, active, last, queue).rest, queue),
    decreases nodes,
{
    if nodes.len() == 0 {
        assert(queue.skip(0) =~= queue);
    } else {
        let first = nodes.first();
        let others = nodes.drop_first();
        if active.removes(first.head(), last) {
            rest_is_suffix(others, active, last, queue);
        } else if active.enters(first.head()) && queue.len() > 0 {
            let tail = queue.drop_first();
            let inner = visit(first->body, queue.first(), tail);
            rest_is_suffix(first->body, queue.first(), tail.len() == 0, tail);
            rest_is_suffix(others, active, last, inner.rest);
            assert(is_suffix(tail, queue)) by {
                assert(tail =~= queue.skip(1));
            }
            suffix_of_suffix(inner.rest, tail, queue);
            suffix_of_suffix(walk(others, active, last, inner.rest).rest, inner.rest, queue);
        } else {
            rest_is_suffix(others, active, last, queue);
        }
    }
}

/// A walk does not notice whether the structures that its selector removes
/// were taken out beforehand.
pub proof fn walk_of_pruned(nodes: Seq<Node>, active: Selector, last: bool, queue: Seq<Selector>)
    ensures
        walk(nodes, active, last, queue) == walk(pruned(nodes, active, last), active, last, queue),
    decreases nodes.len(),
{
    if nodes.len() == 0 {
        assert(pruned(nodes, active, last) =~= nodes) by {
            reveal(Seq::filter);
        }
    } else {
        let first = nodes.first();
        let others = nodes.drop_first();
        let kept = pruned(others, active, last);
        assert(nodes =~= seq![first] + others);
        others.lemma_filter_prepend(first, active.keeps(last));
        if active.removes(first.head(), last) {
            assert(pruned(nodes, active, last) =~= kept);
            walk_of_pruned(others, active, last, queue);
        } else {
            let whole = pruned(nodes, active, last);
            assert(whole =~= seq![first] + kept);
            assert(whole.drop_first() =~= kept);
            if active.enters(first.head()) && queue.len() > 0 {
                let inner = visit(first->body, queue.first(), queue.drop_first());
                walk_of_pruned(others, active, last, inner.rest);
            } else {
                walk_of_pruned(others, active, last, queue);
            }
        }
    }
}

/// On every level the walk takes out exactly the structures that its
/// selector removes. Those that stay keep their order, their names and their
/// labels; only the nested bodies of blocks may have changed.
pub proof fn level_is_pruned(nodes: Seq<Node>, active: Selector, queue: Seq<Selector>)
    ensures
        heads(visit(nodes, active, queue).nodes) == heads(
            pruned(nodes, active, queue.len() == 0),
        ),
{
    level_is_pruned_from(nodes, active, queue.len() == 0, queue);
}

/// [`level_is_pruned`] for a walk that has already gone over part of the body
/// and spent part of the queue.
pub proof fn level_is_pruned_from(
    nodes: Seq<Node>,
    active: Selector,
    last: bool,
    queue: Seq<Selector>,
)
    ensures
        heads(walk(nodes, active, last, queue).nodes) == heads(pruned(nodes, active, last)),
    decreases nodes.len(),
{
    if nodes.len() == 0 {
        assert(pruned(nodes, active, last) =~= nodes) by {
            reveal(Seq::filter);
        }
    } else {
        let first = nodes.first();
        let others = nodes.drop_first();
        let kept = pruned(others, active, last);
        assert(nodes =~= seq![first] + others);
        others.lemma_filter_prepend(first, active.keeps(last));
        if active.removes(first.head(), last) {
            assert(pruned(nodes, active, last) =~= kept);
            level_is_pruned_from(others, active, last, queue);
        } else if active.enters(first.head()) && queue.len() > 0 {
            let inner = visit(first->body, queue.first(), queue.drop_first());
            let after = walk(others, active, last, inner.rest);
            let entered = first.with_body(inner.nodes);
            level_is_pruned_from(others, active, last, inner.rest);
            heads_of_concat(seq![entered], after.nodes);
            heads_of_concat(seq![first], kept);
            assert(heads(seq![entered]) =~= heads(seq![first]));
        } else {
            let after = walk(others, active, last, queue);
            level_is_pruned_from(others, active, last, queue);
            heads_of_concat(seq![first], after.nodes);
            heads_of_concat(seq![first], kept);
        }
    }
}

/// The last selector of a path deletes every structure that it removes, all
/// occurrences at once, and leaves every other structure untouched and in
/// its place.
pub proof fn last_selector_filters(nodes: Seq<Node>, active: Selector)
    ensures
        visit(nodes, active, Seq::empty()) == (Walk {
            nodes: pruned(nodes, active, true),
            rest: Seq::empty(),
        }),
    decreases nodes.len(),
{
    if nodes.len() == 0 {
        assert(pruned(nodes, active, true) =~= nodes) by {
            reveal(Seq::filter);
        }
    } else {
        let first = nodes.first();
        let others = nodes.drop_first();
        assert(nodes =~= seq![first] + others);
        others.lemma_filter_prepend(first, active.keeps(true));
        last_selector_filters(others, active);
    }
}

/// A path of one field deletes from the top of the document every structure
/// that the field removes as the last one, and nothing else.
pub proof fn single_field_filters(nodes: Seq<Node>, path: Seq<Selector>)
    requires
        path.len() == 1,
    ensures
        deleted(nodes, path) == pruned(nodes, path.first(), true),
{
    assert(path.drop_first() =~= Seq::empty());
    last_selector_filters(nodes, path.first());
}

/// A document of one block, under a path that names the block without
/// labels and goes on: the block stays, and what is deleted from its body is
/// the rest of the path. Each level of the document costs the path one field.
pub proof fn sole_block_is_entered(block: Node, path: Seq<Selector>)
    requires
        block is Block,
        path.len() >= 2,
        path.first().name == block->ident,
        path.first().labels.len() == 0,
    ensures
        deleted(seq![block], path) == seq![
            block.with_body(deleted(block->body, path.drop_first())),
        ],
{
    let doc = seq![block];
    let queue = path.drop_first();
    let inner = visit(block->body, queue.first(), queue.drop_first());
    assert(doc.first() == block);
    assert(walk(doc.drop_first(), path.first(), false, inner.rest).nodes.len() == 0);
    assert(seq![block.with_body(inner.nodes)] + doc.drop_first() =~= seq![
        block.with_body(inner.nodes),
    ]);
}

/// A selector whose name no structure of the body bears changes nothing and
/// consumes nothing.
pub proof fn no_match_is_noop(nodes: Seq<Node>, active: Selector, last: bool, queue: Seq<Selector>)
    requires
        forall|i: int| 0 <= i < nodes.len() ==> (#[trigger] nodes[i]).head().name() != active.name,
    ensures
        walk(nodes, active, last, queue) == (Walk { nodes, rest: queue }),
    decreases nodes.len(),
{
    if nodes.len() > 0 {
        let others = nodes.drop_first();
        assert forall|i: int| 0 <= i < others.len() implies (#[trigger] others[i]).head().name()
            != active.name by {
            assert(others[i] == nodes[i + 1]);
        }
        no_match_is_noop(others, active, last, queue);
        assert(seq![nodes.first()] + others =~= nodes);
    }
}

/// Deleting a path whose first name no structure at the top of the document
/// bears leaves the document as it is.
pub proof fn missing_path_is_noop(nodes: Seq<Node>, path: Seq<Selector>)
    requires
        path.len() > 0,
        forall|i: int|
            0 <= i < nodes.len() ==> (#[trigger] nodes[i]).head().name() != path.first().name,
    ensures
        deleted(nodes, path) == nodes,
{
    no_match_is_noop(nodes, path.first(), path.len() == 1, path.drop_first());
}

/// Deleting the empty path leaves the document as it is.
pub proof fn empty_path_is_noop(nodes: Seq<Node>)
    ensures
        deleted(nodes, Seq::empty()) == nodes,
{
}

} // verus!
