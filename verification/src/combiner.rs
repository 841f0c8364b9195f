//! Collecting a fixed number of values.

use vstd::prelude::*;

verus! {

/// Collects values until it holds `threshold` of them, hands them all out
/// at that moment, and takes nothing after it.
pub struct Combiner<T> {
    values: Vec<T>,
    threshold: usize,
    idx: usize,
}

impl<T> Combiner<T> {
    /// The collector counts what it holds, and holds no more than its
    /// threshold, which is positive.
    pub closed spec fn wf(&self) -> bool {
        &&& self.idx == self.values@.len()
        &&& self.idx <= self.threshold
        &&& 0 < self.threshold
    }

    /// The values collected so far, in the order in which they came.
    pub closed spec fn collected(&self) -> Seq<T> {
        self.values@
    }

    /// The number of values at which the collection is handed out.
    pub closed spec fn threshold(&self) -> nat {
        self.threshold as nat
    }

    /// An empty collector that is complete at `threshold` values.
    pub fn new(threshold: usize) -> (combiner: Self)
        requires
            threshold > 0,
        ensures
            combiner.wf(),
            combiner.collected() == Seq::<T>::empty(),
            combiner.threshold() == threshold,
    {
        Combiner { values: Vec::new(), threshold, idx: 0 }
    }

    /// Takes `value` unless the collection is already complete. The call
    /// that completes the collection returns all of it; every other call
    /// returns nothing.
    pub fn combine(&mut self, value: T) -> (complete: Option<&[T]>)
        requires
            old(self).wf(),
        ensures
            final(self).wf(),
            final(self).threshold() == old(self).threshold(),
            old(self).collected().len() <= old(self).threshold(),
            final(self).collected() == if old(self).collected().len() < old(self).threshold() {
                old(self).collected().push(value)
            } else {
                old(self).collected()
            },
            complete is Some <==> old(self).collected().len() + 1 == old(self).threshold(),
            complete matches Some(all) ==> all@ == old(self).collected().push(value),
    {
        if self.idx >= self.threshold {
            return None;
        }
        self.values.push(value);
        self.idx = self.idx + 1;
        if self.idx == self.threshold {
            Some(self.values.as_slice())
        } else {
            None
        }
    }
}

} // verus!
