//! Stable ordering of a collection by a rule on its positions.
//!
//! The collection is seen only through [`Ranked`]: how many items it has and
//! the rule that says when one item must stand after another. The order is a
//! sequence of positions, built by taking the items in the order they come in
//! and moving each one left past the items that must stand after it, and no
//! further.

use vstd::prelude::*;

verus! {

/// A collection whose items are addressed by position and ordered by a rule.
pub trait Ranked {
    /// What the collection requires of itself to be ordered.
    spec fn valid(&self) -> bool;

    /// The number of items.
    spec fn count(&self) -> nat;

    /// The rule of the order: whether the item at the first position must
    /// stand after the item at the second.
    spec fn rule(&self) -> spec_fn(int, int) -> bool;

    /// The number of items.
    fn len(&self) -> (n: usize)
        requires
            self.valid(),
        ensures
            n == self.count(),
    ;

    /// Decides the rule for two positions of the collection.
    fn is_after(&self, i: usize, j: usize) -> (r: bool)
        requires
            self.valid(),
            i < self.count(),
            j < self.count(),
        ensures
            r == (self.rule())(i as int, j as int),
    ;
}

/// The place in `order` where position `x` is put: left of the trailing run of
/// items that must stand after `x`.
pub open spec fn slot(rule: spec_fn(int, int) -> bool, order: Seq<int>, x: int) -> int
    decreases order.len(),
{
    if order.len() > 0 && rule(order.last(), x) {
        slot(rule, order.drop_last(), x)
    } else {
        order.len() as int
    }
}

/// The stable order of the first `n` positions under `rule`.
pub open spec fn stable_order(rule: spec_fn(int, int) -> bool, n: nat) -> Seq<int>
    decreases n,
{
    if n == 0 {
        Seq::empty()
    } else {
        let earlier = stable_order(rule, (n - 1) as nat);
        earlier.insert(slot(rule, earlier, n - 1), n - 1)
    }
}

/// Whether `rule` is a strict weak order on the first `n` positions:
/// nothing stands after itself, the rule is transitive, and so is its
/// complement.
pub open spec fn is_strict_weak(rule: spec_fn(int, int) -> bool, n: nat) -> bool {
    &&& forall|i: int| 0 <= i < n ==> !#[trigger] rule(i, i)
    &&& forall|i: int, j: int, k: int|
        0 <= i < n && 0 <= j < n && 0 <= k < n && #[trigger] rule(i, j) && #[trigger] rule(
            j,
            k,
        ) ==> rule(i, k)
    &&& forall|i: int, j: int, k: int|
        0 <= i < n && 0 <= j < n && 0 <= k < n && !#[trigger] rule(i, j) && !#[trigger] rule(
            j,
            k,
        ) ==> !rule(i, k)
}

/// The view of a vector of positions as mathematical integers.
pub open spec fn positions(v: Seq<usize>) -> Seq<int> {
    v.map_values(|p: usize| p as int)
}

/// What [`slot`] returns, stated without recursion: every item from the slot
/// on must stand after `x`, and the item just left of the slot need not.
pub proof fn lemma_slot_bounds(rule: spec_fn(int, int) -> bool, order: Seq<int>, x: int)
    ensures
        0 <= slot(rule, order, x) <= order.len(),
        forall|k: int| slot(rule, order, x) <= k < order.len() ==> rule(#[trigger] order[k], x),
        slot(rule, order, x) > 0 ==> !rule(order[slot(rule, order, x) - 1], x),
    decreases order.len(),
{
    if order.len() > 0 && rule(order.last(), x) {
        let shorter = order.drop_last();
        lemma_slot_bounds(rule, shorter, x);
        assert forall|k: int| slot(rule, order, x) <= k < order.len() implies rule(
            #[trigger] order[k],
            x,
        ) by {
            if k < shorter.len() {
                assert(shorter[k] == order[k]);
            }
        }
        if slot(rule, order, x) > 0 {
            assert(shorter[slot(rule, order, x) - 1] == order[slot(rule, order, x) - 1]);
        }
    }
}

/// A place with the two properties of [`lemma_slot_bounds`] is the slot.
pub proof fn lemma_slot_unique(rule: spec_fn(int, int) -> bool, order: Seq<int>, x: int, at: int)
    requires
        0 <= at <= order.len(),
        forall|k: int| at <= k < order.len() ==> rule(#[trigger] order[k], x),
        at > 0 ==> !rule(order[at - 1], x),
    ensures
        slot(rule, order, x) == at,
    decreases order.len(),
{
    if order.len() > 0 && rule(order.last(), x) {
        let shorter = order.drop_last();
        assert(at < order.len()) by {
            if at == order.len() {
                assert(order[at - 1] == order.last());
            }
        }
        assert forall|k: int| at <= k < shorter.len() implies rule(#[trigger] shorter[k], x) by {
            assert(shorter[k] == order[k]);
        }
        if at > 0 {
            assert(shorter[at - 1] == order[at - 1]);
        }
        lemma_slot_unique(rule, shorter, x, at);
    } else if order.len() > 0 {
        if at < order.len() {
            assert(rule(order[order.len() - 1], x));
        }
    }
}

/// The stable order of `n` positions holds each of them exactly once.
pub proof fn lemma_stable_order_is_permutation(rule: spec_fn(int, int) -> bool, n: nat)
    ensures
        stable_order(rule, n).len() == n,
        forall|p: int| 0 <= p < n ==> 0 <= #[trigger] stable_order(rule, n)[p] < n,
        forall|p: int, q: int|
            0 <= p < q < n ==> #[trigger] stable_order(rule, n)[p] != #[trigger] stable_order(rule, n)[q],
        forall|i: int| 0 <= i < n ==> stable_order(rule, n).contains(i),
    decreases n,
{
    if n > 0 {
        let earlier = stable_order(rule, (n - 1) as nat);
        let at = slot(rule, earlier, n - 1);
        let order = stable_order(rule, n);
        lemma_stable_order_is_permutation(rule, (n - 1) as nat);
        lemma_slot_bounds(rule, earlier, n - 1);
        assert(order == earlier.insert(at, n - 1));
        assert forall|p: int| 0 <= p < n implies 0 <= #[trigger] order[p] < n by {
            if p < at {
                assert(order[p] == earlier[p]);
            } else if p > at {
                assert(order[p] == earlier[p - 1]);
            }
        }
        assert forall|p: int, q: int| 0 <= p < q < n implies #[trigger] order[p] != #[trigger] order[q] by {
            let a = if p < at { earlier[p] } else if p == at { n - 1 } else { earlier[p - 1] };
            let b = if q < at { earlier[q] } else if q == at { n - 1 } else { earlier[q - 1] };
            assert(order[p] == a);
            assert(order[q] == b);
        }
        assert forall|i: int| 0 <= i < n implies order.contains(i) by {
            if i == n - 1 {
                assert(order[at] == i);
            } else {
                assert(earlier.contains(i));
                let p = choose|p: int| 0 <= p < earlier.len() && earlier[p] == i;
                if p < at {
                    assert(order[p] == i);
                } else {
                    assert(order[p + 1] == i);
                }
            }
        }
    }
}

/// In the stable order, two items of which neither must stand after the other
/// keep the order they came in.
pub proof fn lemma_stable_order_keeps_ties(rule: spec_fn(int, int) -> bool, n: nat)
    ensures
        forall|p: int, q: int|
            0 <= p < q < n && !rule(
                #[trigger] stable_order(rule, n)[q],
                #[trigger] stable_order(rule, n)[p],
            ) ==> stable_order(rule, n)[p] < stable_order(rule, n)[q],
    decreases n,
{
    if n > 0 {
        let earlier = stable_order(rule, (n - 1) as nat);
        let at = slot(rule, earlier, n - 1);
        let order = stable_order(rule, n);
        lemma_stable_order_keeps_ties(rule, (n - 1) as nat);
        lemma_stable_order_is_permutation(rule, (n - 1) as nat);
        lemma_slot_bounds(rule, earlier, n - 1);
        assert(order == earlier.insert(at, n - 1));
        assert forall|p: int, q: int|
            0 <= p < q < n && !rule(#[trigger] order[q], #[trigger] order[p]) implies order[p]
            < order[q] by {
            let a = if p < at { earlier[p] } else if p == at { n - 1 } else { earlier[p - 1] };
            let b = if q < at { earlier[q] } else if q == at { n - 1 } else { earlier[q - 1] };
            assert(order[p] == a);
            assert(order[q] == b);
            if p == at {
                assert(rule(earlier[q - 1], n - 1));
            }
        }
    }
}

/// Under a strict weak order, no item of the stable order must stand after a
/// later one.
pub proof fn lemma_stable_order_is_sorted(rule: spec_fn(int, int) -> bool, n: nat, count: nat)
    requires
        n <= count,
        is_strict_weak(rule, count),
    ensures
        forall|p: int, q: int|
            0 <= p < q < n ==> !rule(
                #[trigger] stable_order(rule, n)[p],
                #[trigger] stable_order(rule, n)[q],
            ),
    decreases n,
{
    if n > 0 {
        let earlier = stable_order(rule, (n - 1) as nat);
        let at = slot(rule, earlier, n - 1);
        let order = stable_order(rule, n);
        let x = n - 1;
        lemma_stable_order_is_sorted(rule, (n - 1) as nat, count);
        lemma_stable_order_is_permutation(rule, (n - 1) as nat);
        lemma_slot_bounds(rule, earlier, x);
        assert(order == earlier.insert(at, x));
        assert forall|p: int, q: int| 0 <= p < q < n implies !rule(
            #[trigger] order[p],
            #[trigger] order[q],
        ) by {
            let a = if p < at { earlier[p] } else if p == at { x } else { earlier[p - 1] };
            let b = if q < at { earlier[q] } else if q == at { x } else { earlier[q - 1] };
            assert(order[p] == a);
            assert(order[q] == b);
            if q == at {
                // p < at: nothing left of the slot must stand after x
                let left = earlier[at - 1];
                assert(!rule(left, x));
                if p < at - 1 {
                    assert(!rule(earlier[p], left));
                } else {
                    assert(earlier[p] == left);
                }
                assert(!rule(a, x));
            } else if p == at {
                // q > at: the item at q must stand after x, so x not after it
                assert(rule(b, x));
                assert(!rule(x, x));
                if rule(x, b) {
                    assert(rule(x, x));
                }
            }
        }
    }
}

/// Computes the stable order of the items of `r`.
pub fn sort_positions<R: Ranked>(r: &R) -> (order: Vec<usize>)
    requires
        r.valid(),
    ensures
        positions(order@) == stable_order(r.rule(), r.count()),
        order@.len() == r.count(),
        forall|p: int| 0 <= p < order@.len() ==> #[trigger] order@[p] < r.count(),
{
    let n = r.len();
    let mut order: Vec<usize> = Vec::new();
    let mut i: usize = 0;
    while i < n
        invariant
            r.valid(),
            n == r.count(),
            i <= n,
            order@.len() == i,
            positions(order@) =~= stable_order(r.rule(), i as nat),
            forall|p: int| 0 <= p < order@.len() ==> #[trigger] order@[p] < i,
        decreases n - i,
    {
        let ghost before = positions(order@);
        let mut at: usize = order.len();
        while at > 0 && r.is_after(order[at - 1], i)
            invariant
                r.valid(),
                n == r.count(),
                i < n,
                at <= order@.len(),
                order@.len() == i,
                before == positions(order@),
                forall|p: int| 0 <= p < order@.len() ==> #[trigger] order@[p] < i,
                forall|k: int|
                    at <= k < before.len() ==> (r.rule())(#[trigger] before[k], i as int),
            decreases at,
        {
            at = at - 1;
        }
        proof {
            lemma_slot_unique(r.rule(), before, i as int, at as int);
        }
        order.insert(at, i);
        assert(positions(order@) =~= before.insert(at as int, i as int));
        i = i + 1;
    }
    order
}

} // verus!
