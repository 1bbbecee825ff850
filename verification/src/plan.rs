//! The deletion plan of one body: which positions go, and taking them out.
//!
//! Taking a structure out moves every structure behind it, so a plan is
//! worked off from its highest position down. [`remove_all`] proves that this
//! removes the planned positions and nothing else, wherever they lie.

use hcl_edit::structure::Body;
use vstd::prelude::*;

use crate::body::body_nodes;
use crate::body::remove_at;
use crate::body::Item;
use crate::field::Field;

verus! {

/// The positions that a plan names.
pub open spec fn positions(plan: Seq<usize>) -> Set<int> {
    Set::new(|p: int| exists|k: int| 0 <= k < plan.len() && #[trigger] plan[k] == p)
}

/// A plan for a body of `len` structures: positions below `len`, each higher
/// than the one before it.
pub open spec fn ascending(plan: Seq<usize>, len: int) -> bool {
    &&& forall|k: int| 0 <= k < plan.len() ==> #[trigger] plan[k] < len
    &&& forall|k: int, l: int| 0 <= k < l < plan.len() ==> #[trigger] plan[k] < #[trigger] plan[l]
}

/// `items` with the positions in `gone` taken out and the others in their
/// order.
pub open spec fn without<T>(items: Seq<T>, gone: Set<int>) -> Seq<T>
    decreases items.len(),
{
    if items.len() == 0 {
        items
    } else if gone.contains(items.len() - 1) {
        without(items.drop_last(), gone)
    } else {
        without(items.drop_last(), gone).push(items.last())
    }
}

/// Taking out no position of a sequence leaves the sequence.
pub proof fn without_none<T>(items: Seq<T>, gone: Set<int>)
    requires
        forall|p: int| 0 <= p < items.len() ==> !gone.contains(p),
    ensures
        without(items, gone) == items,
    decreases items.len(),
{
    if items.len() > 0 {
        without_none(items.drop_last(), gone);
    }
}

/// Below the lowest position taken out, a sequence stays as it is.
pub proof fn without_front<T>(items: Seq<T>, gone: Set<int>, p: int)
    requires
        0 <= p <= items.len(),
        forall|g: int| gone.contains(g) ==> p <= g,
    ensures
        without(items, gone).len() >= p,
        without(items, gone).take(p) == items.take(p),
    decreases items.len(),
{
    if items.len() == p {
        without_none(items, gone);
    } else {
        let shorter = items.drop_last();
        without_front(shorter, gone, p);
        assert(without(shorter, gone).push(items.last()).take(p) =~= without(shorter, gone).take(p));
    }
}

/// Taking out one more position, lower than all those already gone, is
/// removing the structure that stands there now.
pub proof fn without_one_more<T>(items: Seq<T>, gone: Set<int>, p: int)
    requires
        0 <= p < items.len(),
        forall|g: int| gone.contains(g) ==> p < g,
    ensures
        p < without(items, gone).len(),
        without(items, gone).remove(p) == without(items, gone.insert(p)),
    decreases items.len(),
{
    let shorter = items.drop_last();
    without_front(items, gone, p + 1);
    if p == items.len() - 1 {
        without_none(items, gone);
        without_none(shorter, gone.insert(p));
    } else {
        without_one_more(shorter, gone, p);
        if !gone.contains(items.len() - 1) {
            let kept = without(shorter, gone);
            assert(kept.push(items.last()).remove(p) =~= kept.remove(p).push(items.last()));
        }
    }
}

/// Taking out the positions at which a test fails is filtering by that test.
pub proof fn without_is_filter<T>(items: Seq<T>, gone: Set<int>, keep: spec_fn(T) -> bool)
    requires
        forall|p: int| 0 <= p < items.len() ==> (gone.contains(p) <==> !keep(#[trigger] items[p])),
    ensures
        without(items, gone) == items.filter(keep),
    decreases items.len(),
{
    reveal(Seq::filter);
    if items.len() > 0 {
        let shorter = items.drop_last();
        assert forall|p: int| 0 <= p < shorter.len() implies (gone.contains(p) <==> !keep(
            #[trigger] shorter[p],
        )) by {
            assert(shorter[p] == items[p]);
        }
        without_is_filter(shorter, gone, keep);
    }
}

/// The deletion plan of a body for one field: the positions of the structures
/// that the field removes, lowest first, each once.
pub fn deletion_plan(items: &Vec<Item>, active: &Field, last: bool) -> (plan: Vec<usize>)
    ensures
        ascending(plan@, items.len() as int),
        forall|p: int|
            0 <= p < items.len() ==> (positions(plan@).contains(p) <==> active@.removes(
                (#[trigger] items[p])@,
                last,
            )),
{
    let mut plan: Vec<usize> = Vec::new();
    let mut i: usize = 0;
    while i < items.len()
        invariant
            i <= items.len(),
            ascending(plan@, i as int),
            forall|p: int|
                0 <= p < i ==> (positions(plan@).contains(p) <==> active@.removes(
                    (#[trigger] items[p])@,
                    last,
                )),
        decreases items.len() - i,
    {
        let ghost before = plan@;
        if active.removes(&items[i], last) {
            plan.push(i);
            assert(plan@[before.len() as int] == i);
            assert forall|p: int| 0 <= p < i implies (positions(plan@).contains(p)
                <==> positions(before).contains(p)) by {
                if positions(before).contains(p) {
                    let k = choose|k: int| 0 <= k < before.len() && before[k] == p;
                    assert(plan@[k] == p);
                }
            }
        }
        i += 1;
    }
    plan
}

/// Takes the planned positions out of the body, highest first, so that no
/// removal moves a structure that is still to go. What is left is the body
/// without exactly those positions.
pub fn remove_all(body: &mut Body, plan: &Vec<usize>)
    requires
        ascending(plan@, body_nodes(*old(body)).len() as int),
    ensures
        body_nodes(*final(body)) == without(body_nodes(*old(body)), positions(plan@)),
{
    let ghost start = body_nodes(*body);
    let mut k: usize = plan.len();
    proof {
        without_none(start, positions(plan@.skip(k as int)));
    }
    while k > 0
        invariant
            k <= plan.len(),
            ascending(plan@, start.len() as int),
            body_nodes(*body) == without(start, positions(plan@.skip(k as int))),
        decreases k,
    {
        k -= 1;
        let index = plan[k];
        proof {
            let tail = plan@.skip(k + 1);
            let whole = plan@.skip(k as int);
            let gone = positions(tail);
            assert forall|g: int| gone.contains(g) implies index < g by {
                let l = choose|l: int| 0 <= l < tail.len() && #[trigger] tail[l] == g;
                assert(plan@[k + 1 + l] == g);
            }
            without_one_more(start, gone, index as int);
            assert forall|g: int| gone.insert(index as int).contains(g) implies positions(
                whole,
            ).contains(g) by {
                if g == index {
                    assert(whole[0] == g);
                } else {
                    let l = choose|l: int| 0 <= l < tail.len() && #[trigger] tail[l] == g;
                    assert(whole[l + 1] == g);
                }
            }
            assert forall|g: int| positions(whole).contains(g) implies gone.insert(
                index as int,
            ).contains(g) by {
                let l = choose|l: int| 0 <= l < whole.len() && #[trigger] whole[l] == g;
                if l > 0 {
                    assert(tail[l - 1] == g);
                }
            }
            assert(positions(whole) =~= gone.insert(index as int));
        }
        remove_at(body, index);
    }
    assert(plan@.skip(0) =~= plan@);
}

} // verus!
