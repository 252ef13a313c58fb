//! Natural order of names: runs of digits compare as numbers.

use vstd::prelude::*;

verus! {

/// How `natord::compare` orders two texts: negative where the left one comes
/// first, zero where neither does, positive where the right one comes first.
pub uninterp spec fn natural_order_of(left: Seq<char>, right: Seq<char>) -> int;

/// `natord::compare` on two texts. The result is -1, 0 or 1 for the
/// `Less`, `Equal` or `Greater` that the comparison gives.
#[verifier::external_body]
pub(crate) fn natural_order(left: &str, right: &str) -> (order: i8)
    ensures
        order == natural_order_of(left@, right@),
        -1 <= order <= 1,
{
    match natord::compare(left, right) {
        std::cmp::Ordering::Less => -1,
        std::cmp::Ordering::Equal => 0,
        std::cmp::Ordering::Greater => 1,
    }
}

/// Whether `left` comes after `right` in natural order.
pub fn comes_after(left: &str, right: &str) -> (after: bool)
    ensures
        after == (natural_order_of(left@, right@) > 0),
{
    natural_order(left, right) > 0
}

} // verus!
