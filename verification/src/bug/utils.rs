//! A cursor over a borrowed slice of values.
use vstd::prelude::*;

verus! {

/// A cursor over the values still to be read.
#[derive(Clone, Debug, Copy)]
pub struct Stream<'a, T: Clone + std::fmt::Debug> {
    pub values: &'a [T],
}

/// Each value of `b` is a clone of the value at the same place in `a`.
pub open spec fn all_cloned<T: Clone>(a: Seq<T>, b: Seq<T>) -> bool {
    &&& a.len() == b.len()
    &&& forall|i: int| 0 <= i < a.len() ==> cloned::<T>(a[i], #[trigger] b[i])
}

/// How long the prefix is that `collect_until` asks about after moving `k` values on:
/// empty at first, then one value shorter than what was passed.
pub open spec fn asked_len(k: int) -> int {
    if k == 0 {
        0
    } else {
        k - 1
    }
}

/// `done` has answered `b` about a slice holding `p`.
pub open spec fn answered<T, F: Fn(&[T]) -> bool>(done: &F, p: Seq<T>, b: bool) -> bool {
    exists|x: &[T]| x@ == p && done.ensures((x,), b)
}

impl<'a, T: Clone + std::fmt::Debug> Stream<'a, T> {
    /// A cursor at the start of `vs`.
    pub fn new(vs: &'a [T]) -> (r: Self)
        ensures
            r.values@ == vs@,
    {
        return Self { values: vs };
    }

    /// A clone of the first value, and the cursor moves past it; `None` at the end.
    pub fn next(&mut self) -> (r: Option<T>)
        ensures
            old(self).values@.len() > 0 ==> (r matches Some(v) && cloned::<T>(
                old(self).values@[0],
                v,
            )) && final(self).values@ == old(self).values@.drop_first(),
            old(self).values@.len() == 0 ==> r is None && final(self).values@ == old(
                self,
            ).values@,
    {
        if self.values.len() > 0 {
            let p = self.values[0].clone();
            self.values = &self.values[1..self.values.len()];
            Some(p)
        } else {
            None
        }
    }

    /// A clone of the first value, without moving; `None` at the end.
    pub fn peek(&self) -> (r: Option<T>)
        ensures
            self.values@.len() > 0 ==> (r matches Some(v) && cloned::<T>(self.values@[0], v)),
            self.values@.len() == 0 ==> r is None,
    {
        let mut prev = Stream { values: self.values };
        prev.next()
    }

    /// Takes values from the front while `done` rejects what has been taken so far.
    ///
    /// `done` is first asked about the empty prefix; then, while it answers `false` and
    /// values are left, the cursor moves one value on and `done` is asked about the
    /// prefix that ends one value before the cursor. The result is that last prefix;
    /// the value between it and the cursor is skipped.
    pub fn collect_until<F: Fn(&[T]) -> bool>(&mut self, done: &F) -> (r: Self)
        requires
            forall|s: &[T]| #[trigger] done.requires((s,)),
        ensures
            exists|i: int|
                {
                    &&& 0 <= i <= old(self).values@.len()
                    &&& final(self).values@ == old(self).values@.skip(i)
                    &&& r.values@ == old(self).values@.take(asked_len(i))
                    &&& forall|k: int|
                        0 <= k < i ==> #[trigger] answered(
                            done,
                            old(self).values@.take(asked_len(k)),
                            false,
                        )
                    &&& (done.ensures((r.values,), true) || (i == old(self).values@.len()
                        && done.ensures((r.values,), false)))
                },
    {
        let mut tmp = &self.values[0..0];
        let mut i: usize = 0;
        loop
            invariant_except_break
                forall|s: &[T]| #[trigger] done.requires((s,)),
                i <= self.values@.len(),
                self.values@ == old(self).values@,
                tmp@ == self.values@.take(asked_len(i as int)),
                forall|k: int|
                    0 <= k < i ==> #[trigger] answered(
                        done,
                        self.values@.take(asked_len(k)),
                        false,
                    ),
            ensures
                i <= self.values@.len(),
                self.values@ == old(self).values@,
                tmp@ == self.values@.take(asked_len(i as int)),
                forall|k: int|
                    0 <= k < i ==> #[trigger] answered(
                        done,
                        self.values@.take(asked_len(k)),
                        false,
                    ),
                done.ensures((tmp,), true) || (i == self.values@.len() && done.ensures(
                    (tmp,),
                    false,
                )),
            decreases self.values@.len() - i,
        {
            let stop = done(tmp);
            if stop {
                break;
            }
            if i >= self.values.len() {
                break;
            }
            proof {
                assert(answered(done, self.values@.take(asked_len(i as int)), false));
            }
            tmp = &self.values[0..i];
            i += 1;
        }
        let rest = &self.values[i..self.values.len()];
        self.values = rest;
        Self { values: tmp }
    }

    /// Clones of the values still to be read.
    pub fn collect(&self) -> (r: Vec<T>)
        ensures
            all_cloned(self.values@, r@),
    {
        let mut out: Vec<T> = Vec::new();
        let mut i: usize = 0;
        while i < self.values.len()
            invariant
                i <= self.values@.len(),
                out@.len() == i,
                forall|j: int| 0 <= j < i ==> cloned::<T>(self.values@[j], #[trigger] out@[j]),
            decreases self.values@.len() - i,
        {
            out.push(self.values[i].clone());
            i += 1;
        }
        out
    }
}

} // verus!
