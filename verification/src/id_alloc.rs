use vstd::prelude::*;

verus! {

/// Bitmap-backed range allocator issuing unique ids from `[min_id, max_id]`.
///
/// This is the local PID-number allocator each namespace owns: `alloc_id` issues
/// an id that is not currently in use (first free id in the range), `free`
/// returns an id to the pool so it may be issued again.  Allocation and
/// release of the same id are mutually exclusive by `&mut` ownership.
#[derive(Clone, Debug)]
pub struct IdAllocator {
    min_id: usize,
    /// `bits[k]` is true when id `min_id + k` is currently issued.
    bits: Vec<bool>,
}

impl IdAllocator {
    /// Number of ids in the managed range.
    pub closed spec fn capacity(self) -> nat {
        self.bits@.len()
    }

    /// Smallest id the allocator may ever issue.
    pub closed spec fn min_id_spec(self) -> usize {
        self.min_id
    }

    /// `id` lies inside the managed range.
    pub open spec fn in_range(self, id: usize) -> bool {
        self.min_id_spec() <= id && id - self.min_id_spec() < self.capacity()
    }

    /// `id` is currently issued and has not been freed since.
    pub closed spec fn is_used(self, id: usize) -> bool {
        self.in_range(id) && self.bits@[id - self.min_id]
    }

    /// Every id of the range is currently issued.
    pub open spec fn full(self) -> bool {
        forall|id: usize| self.in_range(id) ==> self.is_used(id)
    }

    /// Structural soundness: issuing `min_id + capacity - 1` cannot overflow.
    pub closed spec fn wf(self) -> bool {
        self.min_id >= 1 && self.min_id + self.bits@.len() <= usize::MAX as int + 1
    }

    /// A fresh allocator over `[min_id, max_id]` with no id issued, or `None`
    /// when the range is empty.
    pub fn new(min_id: usize, max_id: usize) -> (r: Option<IdAllocator>)
        requires
            min_id >= 1,
        ensures
            r is Some <==> min_id <= max_id,
            match r {
                Some(a) => {
                    &&& a.wf()
                    &&& a.min_id_spec() == min_id
                    &&& a.capacity() == max_id - min_id + 1
                    &&& forall|id: usize| !a.is_used(id)
                },
                None => true,
            },
    {
        if min_id > max_id {
            return None;
        }
        let count: usize = max_id - min_id + 1;
        let bits: Vec<bool> = vec![false; count];
        Some(IdAllocator { min_id, bits })
    }

    /// Issue an id that is not currently in use; `None` exactly when the
    /// whole range is in use.  Which free id comes out is an allocator
    /// policy, not a caller-visible guarantee.
    pub fn alloc_id(&mut self) -> (r: Option<usize>)
        requires
            old(self).wf(),
        ensures
            final(self).wf(),
            final(self).min_id_spec() == old(self).min_id_spec(),
            final(self).capacity() == old(self).capacity(),
            match r {
                Some(id) => {
                    &&& old(self).in_range(id)
                    &&& !old(self).is_used(id)
                    &&& final(self).is_used(id)
                    &&& forall|o: usize| o != id ==> final(self).is_used(o) == old(self).is_used(o)
                },
                None => {
                    &&& old(self).full()
                    &&& forall|o: usize| final(self).is_used(o) == old(self).is_used(o)
                },
            },
    {
        let mut k: usize = 0;
        while k < self.bits.len()
            invariant
                old(self).wf(),
                self.min_id == old(self).min_id,
                self.bits@ == old(self).bits@,
                k <= self.bits@.len(),
                forall|j: int| 0 <= j < k ==> self.bits@[j],
            decreases self.bits@.len() - k,
        {
            if !self.bits[k] {
                self.bits[k] = true;
                let id: usize = self.min_id + k;
                return Some(id);
            }
            k += 1;
        }
        None
    }

    /// Whether `id` is currently issued.
    pub fn in_use(&self, id: usize) -> (r: bool)
        ensures
            r == self.is_used(id),
    {
        if id < self.min_id {
            false
        } else {
            let k: usize = id - self.min_id;
            if k < self.bits.len() {
                self.bits[k]
            } else {
                false
            }
        }
    }

    /// Return `id` to the pool: afterwards `id` is not in use.  Freeing an id
    /// that is outside the range or not issued is a no-op.
    pub fn free(&mut self, id: usize)
        requires
            old(self).wf(),
        ensures
            final(self).wf(),
            final(self).min_id_spec() == old(self).min_id_spec(),
            final(self).capacity() == old(self).capacity(),
            !final(self).is_used(id),
            forall|o: usize| o != id ==> final(self).is_used(o) == old(self).is_used(o),
    {
        if self.min_id <= id && id - self.min_id < self.bits.len() {
            let k: usize = id - self.min_id;
            self.bits[k] = false;
        }
    }
}

} // verus!
