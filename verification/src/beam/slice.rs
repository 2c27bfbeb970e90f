//! A fixed-length sequence of values that owns them: made once from a vector or a boxed
//! slice, then read and written in place by position.
use vstd::prelude::*;

verus! {

/// A fixed-length sequence of values.
pub struct OwnedSlice<T> {
    items: Vec<T>,
}

impl<T> View for OwnedSlice<T> {
    type V = Seq<T>;

    open spec fn view(&self) -> Seq<T> {
        self.items()
    }
}

impl<T> OwnedSlice<T> {
    /// The values, in order.
    pub closed spec fn items(&self) -> Seq<T> {
        self.items@
    }

    /// The values of `v`, in order.
    pub fn from_vec(v: Vec<T>) -> (r: Self)
        ensures
            r@ == v@,
    {
        OwnedSlice { items: v }
    }

    /// The values of a boxed slice, in order.
    pub fn from_box(v: Box<[T]>) -> (r: Self)
        ensures
            r@ == v@,
    {
        OwnedSlice { items: v.into_vec() }
    }

    /// The number of values.
    pub fn len(&self) -> (n: usize)
        ensures
            n == self@.len(),
    {
        self.items.len()
    }

    /// The value at `idx`, or `None` past the end.
    pub fn get(&self, idx: usize) -> (r: Option<&T>)
        ensures
            idx < self@.len() ==> r == Some(&self@[idx as int]),
            idx >= self@.len() ==> r is None,
    {
        if idx < self.items.len() {
            Some(&self.items[idx])
        } else {
            None
        }
    }

    /// The value at `idx`, which must be in range.
    pub fn get_unchecked(&self, idx: usize) -> (r: &T)
        requires
            idx < self@.len(),
        ensures
            *r == self@[idx as int],
    {
        &self.items[idx]
    }

    /// Replaces the value at `idx`, which must be in range; gives back the old one.
    pub fn set(&mut self, idx: usize, v: T) -> (old_v: T)
        requires
            idx < old(self)@.len(),
        ensures
            final(self)@ == old(self)@.update(idx as int, v),
            old_v == old(self)@[idx as int],
    {
        let mut cur = Vec::new();
        std::mem::swap(&mut cur, &mut self.items);
        let ghost before = cur@;
        let mut tmp = cur;
        let r = tmp.remove(idx);
        tmp.insert(idx, v);
        assert(tmp@ =~= before.update(idx as int, v));
        self.items = tmp;
        r
    }

    /// The values as a slice.
    pub fn as_slice(&self) -> (r: &[T])
        ensures
            r@ == self@,
    {
        self.items.as_slice()
    }
}

} // verus!
