//! The gradient store: a mapping from tensor identity to a gradient buffer,
//! populated lazily and accumulated into, never overwritten.
//!
//! Viewed as a `Map<u64, Seq<u16>>` from identities to buffer contents. The
//! store is an association list with pairwise-distinct identities; buffers
//! are fetched for exclusive mutation by taking them out and putting them
//! back, which is how replay hands a backward kernel several gradient
//! buffers at once without aliasing.

use vstd::prelude::*;
use vstd::pervasive::unreached;
use crate::tensor::zero_buf;
use crate::tensor::GhostRef;
use crate::Error;

verus! {

/// The all-zero buffer contents of length `n`.
pub open spec fn zero_seq(n: nat) -> Seq<u16> {
    Seq::new(n, |i: int| 0u16)
}

/// What allocating for a ghost reference does to the store's contents: a
/// no-op when the identity already has a buffer, otherwise a fresh zero
/// buffer sized to the ghost's buffer length.
pub open spec fn alloc_spec(m: Map<u64, Seq<u16>>, g: GhostRef) -> Map<u64, Seq<u16>> {
    if m.dom().contains(g.id) {
        m
    } else {
        m.insert(g.id, zero_seq(g.len as nat))
    }
}

/// Allocation is idempotent: allocating twice for the same ghost reference
/// is the same as allocating once, so the second call resets nothing.
pub proof fn lemma_alloc_idempotent(m: Map<u64, Seq<u16>>, g: GhostRef)
    ensures
        alloc_spec(alloc_spec(m, g), g) == alloc_spec(m, g),
{
    assert(alloc_spec(m, g).dom().contains(g.id));
}

pub struct Gradients {
    pub ids: Vec<u64>,
    pub bufs: Vec<Vec<u16>>,
}

impl View for Gradients {
    type V = Map<u64, Seq<u16>>;

    open spec fn view(&self) -> Map<u64, Seq<u16>> {
        Map::new(
            |id: u64| self.ids@.contains(id),
            |id: u64| self.bufs@[self.ids@.index_of(id)]@,
        )
    }
}

/// With pairwise-distinct entries, `index_of` finds exactly the index an
/// element sits at.
proof fn lemma_unique_index(ids: Seq<u64>, k: int)
    requires
        forall|i: int, j: int| 0 <= i < j < ids.len() ==> ids[i] != ids[j],
        0 <= k < ids.len(),
    ensures
        ids.index_of(ids[k]) == k,
{
    assert(ids.contains(ids[k]));
    let j = ids.index_of(ids[k]);
    assert(0 <= j < ids.len() && ids[j] == ids[k]);
    if j < k {
        assert(ids[j] != ids[k]);
    }
    if k < j {
        assert(ids[k] != ids[j]);
    }
}

impl Gradients {
    /// Identities and buffers pair up and identities never repeat.
    pub open spec fn wf(self) -> bool {
        &&& self.ids@.len() == self.bufs@.len()
        &&& forall|i: int, j: int| 0 <= i < j < self.ids@.len() ==> self.ids@[i] != self.ids@[j]
    }

    pub fn new() -> (r: Gradients)
        ensures
            r.wf(),
            r@ == Map::<u64, Seq<u16>>::empty(),
    {
        let r = Gradients { ids: Vec::new(), bufs: Vec::new() };
        proof {
            assert(r@ =~= Map::<u64, Seq<u16>>::empty());
        }
        r
    }

    /// Whether nothing has been allocated.
    pub fn is_empty(&self) -> (r: bool)
        requires
            self.wf(),
        ensures
            r <==> self@ == Map::<u64, Seq<u16>>::empty(),
    {
        if self.ids.len() == 0 {
            proof {
                assert(self@ =~= Map::<u64, Seq<u16>>::empty());
            }
            true
        } else {
            proof {
                assert(self.ids@.contains(self.ids@[0]));
                assert(self@.dom().contains(self.ids@[0]));
            }
            false
        }
    }

    /// How many gradient buffers have been allocated.
    pub fn slot_count(&self) -> (r: usize)
        ensures
            r == self.ids@.len(),
    {
        self.ids.len()
    }

    /// Whether a gradient buffer exists for the identity.
    pub fn contains(&self, id: u64) -> (r: bool)
        requires
            self.wf(),
        ensures
            r <==> self@.dom().contains(id),
    {
        match self.find(id) {
            Some(_) => true,
            None => false,
        }
    }

    fn find(&self, id: u64) -> (r: Option<usize>)
        requires
            self.wf(),
        ensures
            match r {
                Some(k) => k < self.ids@.len() && self.ids@[k as int] == id
                    && self.ids@.index_of(id) == k,
                None => !self.ids@.contains(id),
            },
    {
        let n = self.ids.len();
        let mut i: usize = 0;
        while i < n
            invariant
                i <= n,
                n == self.ids@.len(),
                self.wf(),
                forall|j: int| 0 <= j < i ==> self.ids@[j] != id,
            decreases n - i,
        {
            if self.ids[i] == id {
                proof {
                    lemma_unique_index(self.ids@, i as int);
                }
                return Some(i);
            }
            i = i + 1;
        }
        proof {
            if self.ids@.contains(id) {
                let j = choose|j: int| 0 <= j < self.ids@.len() && self.ids@[j] == id;
                assert(self.ids@[j] != id);
            }
        }
        None
    }

    fn insert_new(&mut self, id: u64, buf: Vec<u16>)
        requires
            old(self).wf(),
            !old(self)@.dom().contains(id),
        ensures
            final(self).wf(),
            final(self)@ == old(self)@.insert(id, buf@),
    {
        proof {
            assert(!old(self).ids@.contains(id));
        }
        self.ids.push(id);
        self.bufs.push(buf);
        proof {
            let n = old(self).ids@.len() as int;
            assert forall|i: int, j: int| 0 <= i < j < self.ids@.len() implies self.ids@[i]
                != self.ids@[j] by {
                if j < n {
                    assert(old(self).ids@[i] != old(self).ids@[j]);
                } else {
                    assert(self.ids@[j] == id);
                    assert(old(self).ids@.contains(old(self).ids@[i]));
                }
            }
            assert forall|x: u64| #[trigger] self.ids@.contains(x) implies self@[x] == old(
                self,
            )@.insert(id, buf@)[x] by {
                if x == id {
                    lemma_unique_index(self.ids@, n);
                    assert(self.ids@.index_of(id) == n);
                } else {
                    let k = self.ids@.index_of(x);
                    assert(0 <= k < self.ids@.len() && self.ids@[k] == x);
                    assert(k != n);
                    assert(old(self).ids@[k] == x);
                    assert(old(self).ids@.contains(x));
                    lemma_unique_index(old(self).ids@, k);
                    assert(old(self).ids@.index_of(x) == k);
                }
            }
            assert forall|x: u64| 0 == 0 implies (self.ids@.contains(x) <==> (old(
                self,
            ).ids@.contains(x) || x == id)) by {
                if self.ids@.contains(x) {
                    let k = self.ids@.index_of(x);
                    assert(0 <= k < self.ids@.len() && self.ids@[k] == x);
                    if k < n {
                        assert(old(self).ids@[k] == x);
                    }
                }
                if old(self).ids@.contains(x) {
                    let k = old(self).ids@.index_of(x);
                    assert(self.ids@[k] == x);
                    assert(self.ids@.contains(x));
                }
                if x == id {
                    assert(self.ids@[n] == x);
                    assert(self.ids@.contains(x));
                }
            }
            assert(self@ =~~= old(self)@.insert(id, buf@));
        }
    }

    /// Ensure a zero-filled buffer exists for the ghost reference; a no-op
    /// when one already does. On the CPU allocation cannot be observed to
    /// fail, so this always returns `Ok`.
    pub fn alloc_for(&mut self, g: &GhostRef) -> (r: Result<(), Error>)
        requires
            old(self).wf(),
        ensures
            final(self).wf(),
            r is Ok,
            final(self)@ == alloc_spec(old(self)@, *g),
    {
        match self.find(g.id) {
            Some(_) => {
                proof {
                    assert(self@.dom().contains(g.id));
                }
                Ok(())
            },
            None => {
                proof {
                    if self@.dom().contains(g.id) {
                        assert(self.ids@.contains(g.id));
                    }
                }
                let buf = zero_buf(g.len);
                proof {
                    assert(buf@ =~= zero_seq(g.len as nat));
                }
                self.insert_new(g.id, buf);
                Ok(())
            },
        }
    }

    /// Read the gradient buffer of an identity.
    pub fn get(&self, id: u64) -> (r: &Vec<u16>)
        requires
            self.wf(),
            self@.dom().contains(id),
        ensures
            r@ == self@[id],
    {
        match self.find(id) {
            Some(k) => &self.bufs[k],
            None => {
                proof {
                    assert(self.ids@.contains(id));
                }
                unreached()
            },
        }
    }

    /// Take a buffer out for exclusive mutation; `put` returns it.
    pub fn take(&mut self, id: u64) -> (r: Vec<u16>)
        requires
            old(self).wf(),
            old(self)@.dom().contains(id),
        ensures
            final(self).wf(),
            r@ == old(self)@[id],
            final(self)@ == old(self)@.remove(id),
    {
        proof {
            if !self.ids@.contains(id) {
                assert(!self@.dom().contains(id));
            }
        }
        let k = match self.find(id) {
            Some(k) => k,
            None => unreached(),
        };
        let buf = self.bufs.remove(k);
        self.ids.remove(k);
        proof {
            let n = old(self).ids@.len() as int;
            let ki = k as int;
            assert(self.ids@ =~= old(self).ids@.remove(ki));
            assert(self.bufs@ =~= old(self).bufs@.remove(ki));
            assert forall|i: int, j: int| 0 <= i < j < self.ids@.len() implies self.ids@[i]
                != self.ids@[j] by {
                let i0 = if i < ki { i } else { i + 1 };
                let j0 = if j < ki { j } else { j + 1 };
                assert(self.ids@[i] == old(self).ids@[i0]);
                assert(self.ids@[j] == old(self).ids@[j0]);
            }
            assert forall|x: u64| #[trigger] self.ids@.contains(x) implies x != id && old(
                self,
            ).ids@.contains(x) && self@[x] == old(self)@[x] by {
                let k2 = self.ids@.index_of(x);
                assert(0 <= k2 < self.ids@.len() && self.ids@[k2] == x);
                let k0 = if k2 < ki { k2 } else { k2 + 1 };
                assert(old(self).ids@[k0] == x);
                assert(old(self).ids@.contains(x));
                lemma_unique_index(old(self).ids@, k0);
                if x == id {
                    lemma_unique_index(old(self).ids@, ki);
                }
                assert(self@[x] == self.bufs@[k2]@);
                assert(old(self)@[x] == old(self).bufs@[k0]@);
            }
            assert forall|x: u64| x != id && #[trigger] old(self).ids@.contains(x) implies self
                .ids@.contains(x) by {
                let k0 = old(self).ids@.index_of(x);
                assert(0 <= k0 < n && old(self).ids@[k0] == x);
                assert(k0 != ki);
                let k2 = if k0 < ki { k0 } else { k0 - 1 };
                assert(self.ids@[k2] == x);
            }
            assert(self@ =~~= old(self)@.remove(id));
        }
        buf
    }

    /// Return a taken buffer.
    pub fn put(&mut self, id: u64, buf: Vec<u16>)
        requires
            old(self).wf(),
            !old(self)@.dom().contains(id),
        ensures
            final(self).wf(),
            final(self)@ == old(self)@.insert(id, buf@),
    {
        proof {
            if self.ids@.contains(id) {
                assert(self@.dom().contains(id));
            }
        }
        self.insert_new(id, buf);
    }
}

} // verus!
