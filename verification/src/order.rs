//! The order of posts by which the latest comes first.

use vstd::prelude::*;
use std::cmp::Ordering;
use crate::date::date_le;
use crate::post::{Post, post_date};

verus! {

/// Later dates first: `Less` when `a` is later than `b`.
pub open spec fn later_first(a: (int, int, int), b: (int, int, int)) -> Ordering {
    if a == b {
        Ordering::Equal
    } else if date_le(b, a) {
        Ordering::Less
    } else {
        Ordering::Greater
    }
}

impl Post {
    /// Compares two posts by date, the later one first.
    pub fn cmp(&self, other: &Post) -> (r: Ordering)
        ensures
            r == later_first(post_date(*self), post_date(*other)),
    {
        if other.metadata.date.same_day(&self.metadata.date) {
            Ordering::Equal
        } else if other.metadata.date.no_later_than(&self.metadata.date) {
            Ordering::Less
        } else {
            Ordering::Greater
        }
    }

    /// [`Post::cmp`], which is always defined.
    pub fn partial_cmp(&self, other: &Post) -> (r: Option<Ordering>)
        ensures
            r == Some(later_first(post_date(*self), post_date(*other))),
    {
        Some(self.cmp(other))
    }
}

/// Swapping the posts reverses their order: `Less` one way is `Greater`
/// the other, and `Equal` stays.
pub proof fn law_later_first_antisymmetric(a: (int, int, int), b: (int, int, int))
    ensures
        later_first(a, b) == Ordering::Less <==> later_first(b, a) == Ordering::Greater,
        later_first(a, b) == Ordering::Equal <==> later_first(b, a) == Ordering::Equal,
{
}

/// The order is transitive.
pub proof fn law_later_first_transitive(a: (int, int, int), b: (int, int, int), c: (int, int, int))
    requires
        later_first(a, b) == Ordering::Less,
        later_first(b, c) == Ordering::Less,
    ensures
        later_first(a, c) == Ordering::Less,
{
}

} // verus!
