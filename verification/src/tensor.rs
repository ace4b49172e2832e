//! Tensors, ghost references, and the CPU device that creates them.
//!
//! A tensor is an immutable logical view over a strided buffer of bfloat16
//! bit patterns. Its identity is assigned by the device that created it,
//! monotonically, and is reassigned whenever a buffer is logically replaced,
//! so the gradient store never conflates pre- and post-operation gradients.

use vstd::prelude::*;
use crate::shape::contig_of;
use crate::shape::contig_strides;
use crate::shape::dims_pos;
use crate::shape::lemma_offset_contig;
use crate::shape::lemma_offset_zero_strides;
use crate::shape::numel;
use crate::shape::numel_of;
use crate::shape::offset_at;
use crate::shape::offset_of;
use crate::DeviceKind;
use crate::Error;

verus! {

/// A data-less (identity, buffer length, device) handle for a tensor, used
/// to look up its gradient slot after the tensor itself may have been
/// consumed. The buffer length is what sizing a gradient buffer needs.
#[derive(Clone, Copy, Debug, PartialEq, Eq, Structural)]
pub struct GhostRef {
    pub id: u64,
    pub len: usize,
    pub dev: DeviceKind,
}

/// An immutable logical view over a strided buffer of bfloat16 bit patterns.
/// A clone shares the identity: it stands for the same logical value, so it
/// must feed the same gradient slot.
#[derive(Clone)]
pub struct Tensor {
    pub id: u64,
    pub shape: Vec<usize>,
    pub strides: Vec<usize>,
    pub data: Vec<u16>,
    pub dev: DeviceKind,
}

impl Tensor {
    /// Well-formed: strides match the shape's rank, every dimension is at
    /// least one, and every logical position reaches an offset inside the
    /// buffer.
    pub open spec fn wf(self) -> bool {
        &&& self.strides@.len() == self.shape@.len()
        &&& dims_pos(self.shape@)
        &&& numel(self.shape@) <= usize::MAX
        &&& self.data@.len() <= usize::MAX
        &&& forall|p: nat|
            p < numel(self.shape@) ==> #[trigger] offset_of(p, self.shape@, self.strides@)
                < self.data@.len()
    }

    /// The number of logical elements.
    pub open spec fn n(self) -> nat {
        numel(self.shape@)
    }

    /// The element at logical position `p`.
    pub open spec fn elem(self, p: nat) -> u16 {
        self.data@[offset_of(p, self.shape@, self.strides@) as int]
    }

    /// The ghost reference of this tensor.
    pub fn ghost_ref(&self) -> (r: GhostRef)
        ensures
            r == (GhostRef { id: self.id, len: self.data@.len() as usize, dev: self.dev }),
    {
        GhostRef { id: self.id, len: self.data.len(), dev: self.dev }
    }

    /// Read the element at logical position `pos`.
    pub fn read(&self, pos: usize) -> (r: u16)
        requires
            self.wf(),
            pos < self.n(),
        ensures
            r == self.elem(pos as nat),
    {
        let len = self.data.len();
        proof {
            assert(offset_of(pos as nat, self.shape@, self.strides@) < len);
        }
        let off = offset_at(&self.shape, &self.strides, pos);
        self.data[off]
    }
}

/// A fresh vector of `n` dimension sizes copied from `a`.
pub fn copy_dims(a: &Vec<usize>) -> (r: Vec<usize>)
    ensures
        r@ == a@,
{
    let n = a.len();
    let mut v: Vec<usize> = Vec::new();
    let mut i: usize = 0;
    while i < n
        invariant
            i <= n,
            n == a@.len(),
            v@ == a@.take(i as int),
        decreases n - i,
    {
        v.push(a[i]);
        proof {
            assert(v@ =~= a@.take(i + 1));
        }
        i = i + 1;
    }
    proof {
        assert(a@.take(n as int) =~= a@);
    }
    v
}

/// A zero-filled element buffer of length `n`.
pub fn zero_buf(n: usize) -> (r: Vec<u16>)
    ensures
        r@.len() == n,
        forall|i: int| 0 <= i < n ==> r@[i] == 0u16,
{
    let mut v: Vec<u16> = Vec::new();
    let mut i: usize = 0;
    while i < n
        invariant
            i <= n,
            v@.len() == i,
            forall|j: int| 0 <= j < i ==> v@[j] == 0u16,
        decreases n - i,
    {
        v.push(0u16);
        i = i + 1;
    }
    v
}

/// The CPU backend. It owns nothing but the next tensor identity to hand
/// out; element buffers live in the tensors themselves.
pub struct Cpu {
    pub next_id: u64,
}

impl Cpu {
    pub fn new() -> (r: Cpu)
        ensures
            r.next_id == 0,
    {
        Cpu { next_id: 0 }
    }

    /// The next identity; never handed out twice.
    pub fn fresh_id(&mut self) -> (r: u64)
        requires
            old(self).next_id < u64::MAX,
        ensures
            r == old(self).next_id,
            final(self).next_id == old(self).next_id + 1,
    {
        let id = self.next_id;
        self.next_id = self.next_id + 1;
        id
    }

    /// A contiguous tensor over the given data, in row-major order.
    pub fn tensor_from_vec(&mut self, data: Vec<u16>, shape: Vec<usize>) -> (r: Tensor)
        requires
            old(self).next_id < u64::MAX,
            dims_pos(shape@),
            data@.len() == numel(shape@),
        ensures
            r.wf(),
            r.id == old(self).next_id,
            final(self).next_id == old(self).next_id + 1,
            r.shape@ == shape@,
            r.strides@ == contig_of(shape@),
            r.data@ == data@,
            r.dev == DeviceKind::Cpu,
            forall|p: nat| p < numel(shape@) ==> r.elem(p) == data@[p as int],
    {
        let n = data.len();
        proof {
            assert(numel(shape@) <= usize::MAX);
        }
        let strides = contig_strides(&shape);
        let id = self.fresh_id();
        let t = Tensor { id, shape, strides, data, dev: DeviceKind::Cpu };
        proof {
            assert forall|p: nat| p < numel(t.shape@) implies #[trigger] offset_of(
                p,
                t.shape@,
                t.strides@,
            ) < t.data@.len() by {
                lemma_offset_contig(p, t.shape@);
            }
            assert forall|p: nat| p < numel(t.shape@) implies t.elem(p) == t.data@[p as int] by {
                lemma_offset_contig(p, t.shape@);
            }
        }
        t
    }

    /// A tensor that broadcasts one stored value across a whole shape by
    /// giving every dimension stride zero.
    pub fn broadcast_scalar(&mut self, value: u16, shape: Vec<usize>) -> (r: Tensor)
        requires
            old(self).next_id < u64::MAX,
            dims_pos(shape@),
            numel(shape@) <= usize::MAX,
        ensures
            r.wf(),
            r.id == old(self).next_id,
            final(self).next_id == old(self).next_id + 1,
            r.shape@ == shape@,
            r.data@.len() == 1,
            r.dev == DeviceKind::Cpu,
            forall|p: nat| p < numel(shape@) ==> r.elem(p) == value,
    {
        let rank = shape.len();
        let mut strides: Vec<usize> = Vec::new();
        let mut i: usize = 0;
        while i < rank
            invariant
                i <= rank,
                strides@.len() == i,
                forall|j: int| 0 <= j < i ==> #[trigger] strides@[j] == 0,
            decreases rank - i,
        {
            strides.push(0);
            i = i + 1;
        }
        let mut data: Vec<u16> = Vec::new();
        data.push(value);
        let id = self.fresh_id();
        let t = Tensor { id, shape, strides, data, dev: DeviceKind::Cpu };
        proof {
            assert forall|p: nat| p < numel(t.shape@) implies #[trigger] offset_of(
                p,
                t.shape@,
                t.strides@,
            ) < t.data@.len() by {
                lemma_offset_zero_strides(p, t.shape@, t.strides@);
            }
            assert forall|p: nat| p < numel(t.shape@) implies t.elem(p) == value by {
                lemma_offset_zero_strides(p, t.shape@, t.strides@);
            }
        }
        t
    }

    /// A zero-filled contiguous tensor of the given shape. Allocation on the
    /// CPU cannot be observed to fail, so this always returns `Ok`; the
    /// `Result` is the uniform device allocation surface.
    pub fn try_zeros_like(&mut self, shape: &Vec<usize>) -> (r: Result<Tensor, Error>)
        requires
            old(self).next_id < u64::MAX,
            dims_pos(shape@),
            numel(shape@) <= usize::MAX,
        ensures
            r is Ok,
            r matches Ok(t) ==> {
                &&& t.wf()
                &&& t.id == old(self).next_id
                &&& t.shape@ == shape@
                &&& t.strides@ == contig_of(shape@)
                &&& t.data@.len() == numel(shape@)
                &&& t.dev == DeviceKind::Cpu
                &&& forall|i: int| 0 <= i < t.data@.len() ==> t.data@[i] == 0u16
            },
            final(self).next_id == old(self).next_id + 1,
    {
        let n = numel_of(shape);
        let data = zero_buf(n);
        let dims = copy_dims(shape);
        let t = self.tensor_from_vec(data, dims);
        Ok(t)
    }
}

} // verus!
