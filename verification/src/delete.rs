//! Removes values from HCL documents by walking the document tree along a
//! path of fields.

use hcl_edit::structure::Body;
use vstd::prelude::*;

use crate::body::body_nodes;
use crate::body::child_mut;
use crate::body::items;
use crate::error::DeleteError;
use crate::field::selectors;
use crate::field::Field;
use crate::laws::is_suffix;
use crate::laws::rest_is_suffix;
use crate::laws::suffix_of_suffix;
use crate::laws::walk_of_pruned;
use crate::model::deleted;
use crate::model::pruned;
use crate::model::visit;
use crate::model::walk;
use crate::model::Node;
use crate::model::Selector;
use crate::model::Walk;
use crate::plan::deletion_plan;
use crate::plan::without_is_filter;
use crate::plan::positions;
use crate::plan::remove_all;

verus! {

/// The walker: the fields still to come, the field that the body to be
/// visited next is matched against, and the first failure met on the way.
pub struct HclDeleter {
    pub fields: Vec<Field>,
    pub next: Option<Field>,
    pub error: Option<DeleteError>,
}

/// The selector that was taken from `queue` last, given that `rest` is what
/// is left of it; `active` if none was taken.
pub open spec fn last_taken(active: Selector, queue: Seq<Selector>, rest: Seq<Selector>) -> Selector {
    if rest.len() < queue.len() {
        queue[queue.len() - rest.len() - 1]
    } else {
        active
    }
}

/// One step of a walk over structures of which the selector removes none.
proof fn walk_unfolds(kept: Seq<Node>, active: Selector, last: bool, queue: Seq<Selector>, i: int)
    requires
        0 <= i < kept.len(),
        !active.removes(kept[i].head(), last),
    ensures
        active.enters(kept[i].head()) && queue.len() > 0 ==> walk(
            kept.skip(i),
            active,
            last,
            queue,
        ) == ({
            let inner = visit(kept[i]->body, queue.first(), queue.drop_first());
            let after = walk(kept.skip(i + 1), active, last, inner.rest);
            Walk { nodes: seq![kept[i].with_body(inner.nodes)] + after.nodes, rest: after.rest }
        }),
        !(active.enters(kept[i].head()) && queue.len() > 0) ==> walk(
            kept.skip(i),
            active,
            last,
            queue,
        ) == ({
            let after = walk(kept.skip(i + 1), active, last, queue);
            Walk { nodes: seq![kept[i]] + after.nodes, rest: after.rest }
        }),
{
    assert(kept.skip(i).drop_first() =~= kept.skip(i + 1));
}

impl HclDeleter {
    /// The selector that the next visit works with and the queue behind it:
    /// the field held ready if there is one, else the first of the queue.
    /// `None` when there is neither.
    pub open spec fn pending(&self) -> Option<(Selector, Seq<Selector>)> {
        if let Some(field) = self.next {
            Some((field@, selectors(self.fields@)))
        } else if self.fields.len() > 0 {
            Some((self.fields[0]@, selectors(self.fields@).drop_first()))
        } else {
            None
        }
    }

    /// A walker at the start of `fields`, with no field held ready and no
    /// failure.
    pub fn new(fields: Vec<Field>) -> (deleter: HclDeleter)
        ensures
            deleter.fields == fields,
            deleter.next is None,
            deleter.error is None,
    {
        HclDeleter { fields, next: None, error: None }
    }

    /// Holds the first field of the queue ready, unless one is held ready
    /// already or the queue is empty.
    pub fn next_field(&mut self)
        ensures
            final(self).error == old(self).error,
            old(self).next is None && old(self).fields.len() > 0 ==> final(self).next == Some(
                old(self).fields[0],
            ) && final(self).fields@ == old(self).fields@.drop_first(),
            old(self).next is Some || old(self).fields.len() == 0 ==> final(self).next == old(
                self,
            ).next && final(self).fields == old(self).fields,
    {
        if self.next.is_none() && !self.fields.is_empty() {
            let first = self.fields.remove(0);
            self.next = Some(first);
        }
    }

    /// Walks one body: deletes from it what the pending field removes, then
    /// goes on, with the fields that follow, inside the blocks that the
    /// field enters. Without a pending field nothing happens.
    ///
    /// Afterwards the queue holds the fields that the walk did not consume,
    /// and the field held ready is the one consumed last.
    pub fn visit_body_mut(&mut self, node: &mut Body)
        ensures
            final(self).error == old(self).error,
            match old(self).pending() {
                None => {
                    &&& body_nodes(*final(node)) == body_nodes(*old(node))
                    &&& final(self).next is None
                    &&& final(self).fields == old(self).fields
                },
                Some((active, queue)) => {
                    let outcome = visit(body_nodes(*old(node)), active, queue);
                    &&& body_nodes(*final(node)) == outcome.nodes
                    &&& selectors(final(self).fields@) == outcome.rest
                    &&& final(self).next is Some
                    &&& final(self).next->0@ == last_taken(active, queue, outcome.rest)
                },
            },
        decreases old(self).fields.len(),
    {
        self.next_field();
        let active = match &self.next {
            Some(field) => field.clone(),
            None => {
                return ;
            },
        };
        let ghost start = body_nodes(*node);
        let ghost queue = selectors(self.fields@);
        proof {
            assert(old(self).pending() == Some((active@, queue))) by {
                if old(self).next is None {
                    assert(queue =~= selectors(old(self).fields@).drop_first());
                }
            }
        }
        let last = self.fields.is_empty();

        // first pass: take out what the field removes
        let found = items(node);
        let plan = deletion_plan(&found, &active, last);
        remove_all(node, &plan);
        let ghost kept = body_nodes(*node);
        proof {
            assert forall|p: int| 0 <= p < start.len() implies (positions(plan@).contains(p)
                <==> !(active@.keeps(last))(#[trigger] start[p])) by {
                assert(found[p]@ == start[p].head());
            }
            without_is_filter(start, positions(plan@), active@.keeps(last));
            assert(kept == pruned(start, active@, last));
            walk_of_pruned(start, active@, last, queue);
            assert forall|j: int| 0 <= j < kept.len() implies !active@.removes(
                (#[trigger] kept[j]).head(),
                last,
            ) by {
                start.lemma_filter_pred(active@.keeps(last), j);
            }
            assert(queue.skip(0) =~= queue);
            assert(kept.skip(0) =~= kept);
        }

        // second pass: go on inside the blocks that are still there
        let found = items(node);
        let mut i: usize = 0;
        while i < found.len()
            invariant
                i <= found.len() == kept.len(),
                forall|j: int| 0 <= j < found.len() ==> (#[trigger] found[j])@ == kept[j].head(),
                forall|j: int|
                    0 <= j < kept.len() ==> !active@.removes((#[trigger] kept[j]).head(), last),
                body_nodes(*node).len() == kept.len(),
                forall|j: int| i <= j < kept.len() ==> #[trigger] body_nodes(*node)[j] == kept[j],
                walk(kept, active@, last, queue).nodes == body_nodes(*node).take(i as int) + walk(
                    kept.skip(i as int),
                    active@,
                    last,
                    selectors(self.fields@),
                ).nodes,
                walk(kept, active@, last, queue).rest == walk(
                    kept.skip(i as int),
                    active@,
                    last,
                    selectors(self.fields@),
                ).rest,
                is_suffix(selectors(self.fields@), queue),
                queue.len() <= old(self).fields.len(),
                self.next is Some,
                self.next->0@ == last_taken(active@, queue, selectors(self.fields@)),
                self.error == old(self).error,
            decreases found.len() - i,
        {
            let ghost before = body_nodes(*node);
            let ghost waiting = selectors(self.fields@);
            proof {
                walk_unfolds(kept, active@, last, waiting, i as int);
            }
            if active.enters(&found[i]) && !self.fields.is_empty() {
                let taken = self.fields.remove(0);
                self.next = Some(taken);
                proof {
                    assert(selectors(self.fields@) =~= waiting.drop_first());
                    suffix_of_suffix(waiting.drop_first(), waiting, queue);
                }
                let child = child_mut(node, i);
                self.visit_body_mut(child);
                proof {
                    let inner = visit(kept[i as int]->body, waiting.first(), waiting.drop_first());
                    rest_is_suffix(
                        kept[i as int]->body,
                        waiting.first(),
                        waiting.drop_first().len() == 0,
                        waiting.drop_first(),
                    );
                    suffix_of_suffix(inner.rest, waiting.drop_first(), queue);
                    let changed = kept[i as int].with_body(inner.nodes);
                    assert(body_nodes(*node) == before.update(i as int, changed));
                    assert(body_nodes(*node).take(i + 1) =~= before.take(i as int) + seq![changed]);
                }
            } else {
                assert(before.take(i + 1) =~= before.take(i as int) + seq![kept[i as int]]);
            }
            i += 1;
        }
        assert(body_nodes(*node).take(i as int) =~= body_nodes(*node));
    }
}

/// Deletes from `body` what the path `fields` points at: the document is
/// walked from its root, each level consuming one field, and what the field
/// of a level removes is taken out of that level. The empty path deletes
/// nothing. No path fails.
pub fn delete(fields: Vec<Field>, body: &mut Body) -> (outcome: Result<(), DeleteError>)
    ensures
        outcome is Ok,
        body_nodes(*final(body)) == deleted(body_nodes(*old(body)), selectors(fields@)),
        fields.len() == 0 ==> body_nodes(*final(body)) == body_nodes(*old(body)),
{
    let mut visitor = HclDeleter::new(fields);
    visitor.visit_body_mut(body);
    if let Some(err) = visitor.error {
        return Err(err);
    }
    Ok(())
}

} // verus!
