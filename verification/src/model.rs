//! Views of collections, and copies of values that have the same view.

use vstd::prelude::*;

verus! {

/// The views of the items.
pub open spec fn views<T: View>(items: Seq<T>) -> Seq<T::V> {
    Seq::new(items.len(), |i: int| items[i]@)
}

/// The view of the item, where there is one.
pub open spec fn opt_view<T: View>(item: Option<T>) -> Option<T::V> {
    match item {
        Some(value) => Some(value@),
        None => None,
    }
}

/// Values that can be copied.
pub trait Duplicate: View + Sized {
    /// Another value with the same view.
    fn duplicate(&self) -> (r: Self)
        ensures
            r@ == self@,
    ;
}

impl Duplicate for String {
    fn duplicate(&self) -> (r: String) {
        self.clone()
    }
}

impl Duplicate for bool {
    fn duplicate(&self) -> (r: bool) {
        *self
    }
}

impl Duplicate for Vec<u32> {
    fn duplicate(&self) -> (r: Vec<u32>) {
        let mut out: Vec<u32> = Vec::new();
        let mut i: usize = 0;
        while i < self.len()
            invariant
                i <= self@.len(),
                out@ == self@.take(i as int),
            decreases self@.len() - i,
        {
            out.push(self[i]);
            assert(out@ =~= self@.take(i + 1));
            i += 1;
        }
        assert(self@.take(self@.len() as int) =~= self@);
        out
    }
}

/// Copies of the items.
pub fn duplicate_all<T: Duplicate>(items: &Vec<T>) -> (r: Vec<T>)
    ensures
        views(r@) == views(items@),
{
    let mut out: Vec<T> = Vec::new();
    let mut i: usize = 0;
    while i < items.len()
        invariant
            i <= items@.len(),
            out@.len() == i,
            forall|j: int| 0 <= j < i ==> (#[trigger] out@[j])@ == items@[j]@,
        decreases items@.len() - i,
    {
        out.push(items[i].duplicate());
        i += 1;
    }
    assert(views(out@) =~= views(items@));
    out
}

/// A copy of the item, where there is one.
pub fn duplicate_option<T: Duplicate>(item: &Option<T>) -> (r: Option<T>)
    ensures
        opt_view(r) == opt_view(*item),
{
    match item {
        Some(value) => Some(value.duplicate()),
        None => None,
    }
}

} // verus!
