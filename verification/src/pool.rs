//! Global pooling modules: reduce an entire image, folding the trailing
//! height and width dimensions away — 3d `(C, H, W)` to 1d `(C,)`, 4d
//! `(B, C, H, W)` to 2d `(B, C)`. These are inference-time forwards over the
//! tensor model; they record nothing on a tape.

use vstd::prelude::*;
use crate::scalar::add_bits;
use crate::scalar::bf_add;
use crate::scalar::bf_div;
use crate::scalar::bf_from_usize;
use crate::scalar::bf_max;
use crate::scalar::bf_min;
use crate::scalar::div_bits;
use crate::scalar::from_usize_bits;
use crate::scalar::max_bits;
use crate::scalar::min_bits;
use crate::shape::dims_pos;
use crate::shape::lemma_numel_pos;
use crate::shape::lemma_numel_split;
use crate::shape::numel;
use crate::shape::numel_of;
use crate::tensor::Cpu;
use crate::tensor::Tensor;
use crate::Error;

verus! {

/// How a window is folded into one value.
#[derive(Clone, Copy, Debug, PartialEq, Eq, Structural)]
pub enum ReduceKind {
    Sum,
    Max,
    Min,
}

/// The fold of a window of `w` consecutive logical positions starting at
/// `base`, combined left to right.
pub open spec fn window_reduce(op: ReduceKind, t: Tensor, base: nat, w: nat) -> u16
    decreases w,
{
    if w <= 1 {
        t.elem(base)
    } else {
        let prev = window_reduce(op, t, base, (w - 1) as nat);
        let e = t.elem((base + w - 1) as nat);
        match op {
            ReduceKind::Sum => add_bits(prev, e),
            ReduceKind::Max => max_bits(prev, e),
            ReduceKind::Min => min_bits(prev, e),
        }
    }
}

/// The leading dimensions a global pool keeps.
pub open spec fn lead_of(shape: Seq<usize>) -> Seq<usize> {
    shape.take(shape.len() - 2)
}

/// The size of the window a global pool folds away: the element count of
/// the trailing two dimensions.
pub open spec fn window_of(shape: Seq<usize>) -> nat {
    numel(shape.skip(shape.len() - 2))
}

/// What one output element of a global pool holds.
pub open spec fn pooled_at(op: ReduceKind, average: bool, t: Tensor, l: nat) -> u16 {
    let w = window_of(t.shape@);
    let folded = window_reduce(ReduceKind::Sum, t, l * w, w);
    if average {
        div_bits(folded, from_usize_bits(w as usize))
    } else {
        window_reduce(op, t, l * w, w)
    }
}

/// The fold of one window, computed.
#[verifier::loop_isolation(false)]
fn reduce_window(op: ReduceKind, t: &Tensor, base: usize, w: usize) -> (r: u16)
    requires
        t.wf(),
        w >= 1,
        base + w <= numel(t.shape@),
    ensures
        r == window_reduce(op, *t, base as nat, w as nat),
{
    let mut acc = t.read(base);
    let mut k: usize = 1;
    while k < w
        invariant
            1 <= k <= w,
            acc == window_reduce(op, *t, base as nat, k as nat),
        decreases w - k,
    {
        let e = t.read(base + k);
        acc = match op {
            ReduceKind::Sum => bf_add(acc, e),
            ReduceKind::Max => bf_max(acc, e),
            ReduceKind::Min => bf_min(acc, e),
        };
        k = k + 1;
    }
    acc
}

/// The shared global-pool forward: requires a 3d or 4d input and reduces
/// its trailing two dimensions, yielding a fresh contiguous tensor over the
/// leading dimensions. Fails with `ShapeMismatch` exactly when the rank is
/// neither 3 nor 4.
#[verifier::loop_isolation(false)]
fn pool_forward(op: ReduceKind, average: bool, dev: &mut Cpu, input: &Tensor) -> (r: Result<
    Tensor,
    Error,
>)
    requires
        input.wf(),
        old(dev).next_id < u64::MAX,
    ensures
        r is Ok <==> (input.shape@.len() == 3 || input.shape@.len() == 4),
        r is Err ==> r == Err::<Tensor, Error>(Error::ShapeMismatch) && *final(dev) == *old(dev),
        r matches Ok(out) ==> {
            &&& out.wf()
            &&& out.id == old(dev).next_id
            &&& final(dev).next_id == old(dev).next_id + 1
            &&& out.shape@ == lead_of(input.shape@)
            &&& out.data@.len() == numel(lead_of(input.shape@))
            &&& forall|l: nat|
                l < numel(lead_of(input.shape@)) ==> #[trigger] out.data@[l as int] == pooled_at(
                    op,
                    average,
                    *input,
                    l,
                )
        },
{
    let rank = input.shape.len();
    if rank != 3 && rank != 4 {
        return Err(Error::ShapeMismatch);
    }
    let ghost sh = input.shape@;
    let mut lead: Vec<usize> = Vec::new();
    let mut i: usize = 0;
    while i < rank - 2
        invariant
            i <= rank - 2,
            lead@ == sh.take(i as int),
        decreases rank - 2 - i,
    {
        lead.push(input.shape[i]);
        proof {
            assert(lead@ =~= sh.take(i + 1));
        }
        i = i + 1;
    }
    proof {
        assert(lead@ == lead_of(sh));
        lemma_numel_split(sh, rank - 2);
        lemma_numel_pos(sh.skip(rank - 2));
        lemma_numel_pos(sh.take(rank - 2));
        assert(dims_pos(lead@));
        assert(numel(lead@) * window_of(sh) == numel(sh)) by (nonlinear_arith)
            requires
                numel(sh) == numel(sh.take(rank - 2)) * numel(sh.skip(rank - 2)),
                lead@ == sh.take(rank - 2),
                window_of(sh) == numel(sh.skip(rank - 2)),
        ;
        assert(numel(lead@) <= numel(sh)) by (nonlinear_arith)
            requires
                numel(lead@) * window_of(sh) == numel(sh),
                window_of(sh) >= 1,
        ;
    }
    let ll = numel_of(&lead);
    let mut trailing: Vec<usize> = Vec::new();
    trailing.push(input.shape[rank - 2]);
    trailing.push(input.shape[rank - 1]);
    proof {
        assert(trailing@ =~= sh.skip(rank - 2));
        assert(numel(sh.skip(rank - 2)) <= numel(sh)) by (nonlinear_arith)
            requires
                numel(lead@) * numel(sh.skip(rank - 2)) == numel(sh),
                numel(lead@) >= 1,
        ;
    }
    let w = numel_of(&trailing);
    let n = numel_of(&input.shape);
    let mut data: Vec<u16> = Vec::new();
    let mut l: usize = 0;
    while l < ll
        invariant
            l <= ll,
            data@.len() == l,
            forall|q: nat|
                q < l ==> #[trigger] data@[q as int] == pooled_at(op, average, *input, q),
        decreases ll - l,
    {
        proof {
            assert((l + 1) * w <= ll * w) by (nonlinear_arith)
                requires
                    l < ll,
                    w >= 1,
            ;
            assert(l * w + w == (l + 1) * w) by (nonlinear_arith);
        }
        let base = l * w;
        let folded = reduce_window(if average {
            ReduceKind::Sum
        } else {
            op
        }, input, base, w);
        let v = if average {
            bf_div(folded, bf_from_usize(w))
        } else {
            folded
        };
        data.push(v);
        l = l + 1;
    }
    let out = dev.tensor_from_vec(data, lead);
    Ok(out)
}

/// Applies average pooling over an entire image, fully reducing the height
/// and width dimensions: 3d `(C, H, W)` to 1d `(C,)`, 4d `(B, C, H, W)` to
/// 2d `(B, C)`.
#[derive(Clone, Copy, Default)]
pub struct AvgPoolGlobal;

/// Applies max pooling over an entire image, fully reducing the height and
/// width dimensions: 3d `(C, H, W)` to 1d `(C,)`, 4d `(B, C, H, W)` to 2d
/// `(B, C)`.
#[derive(Clone, Copy, Default)]
pub struct MaxPoolGlobal;

/// Applies min pooling over an entire image, fully reducing the height and
/// width dimensions: 3d `(C, H, W)` to 1d `(C,)`, 4d `(B, C, H, W)` to 2d
/// `(B, C)`.
#[derive(Clone, Copy, Default)]
pub struct MinPoolGlobal;

impl AvgPoolGlobal {
    /// Each output element is the window's sum divided by the window size.
    pub fn try_forward(&self, dev: &mut Cpu, input: &Tensor) -> (r: Result<Tensor, Error>)
        requires
            input.wf(),
            old(dev).next_id < u64::MAX,
        ensures
            r is Ok <==> (input.shape@.len() == 3 || input.shape@.len() == 4),
            r is Err ==> r == Err::<Tensor, Error>(Error::ShapeMismatch),
            r matches Ok(out) ==> {
                &&& out.wf()
                &&& out.id == old(dev).next_id
                &&& final(dev).next_id == old(dev).next_id + 1
                &&& out.shape@ == lead_of(input.shape@)
                &&& out.data@.len() == numel(lead_of(input.shape@))
                &&& forall|l: nat|
                    l < numel(lead_of(input.shape@)) ==> #[trigger] out.data@[l as int]
                        == pooled_at(ReduceKind::Sum, true, *input, l)
            },
    {
        pool_forward(ReduceKind::Sum, true, dev, input)
    }
}

impl MaxPoolGlobal {
    /// Each output element is the window's running maximum.
    pub fn try_forward(&self, dev: &mut Cpu, input: &Tensor) -> (r: Result<Tensor, Error>)
        requires
            input.wf(),
            old(dev).next_id < u64::MAX,
        ensures
            r is Ok <==> (input.shape@.len() == 3 || input.shape@.len() == 4),
            r is Err ==> r == Err::<Tensor, Error>(Error::ShapeMismatch),
            r matches Ok(out) ==> {
                &&& out.wf()
                &&& out.id == old(dev).next_id
                &&& final(dev).next_id == old(dev).next_id + 1
                &&& out.shape@ == lead_of(input.shape@)
                &&& out.data@.len() == numel(lead_of(input.shape@))
                &&& forall|l: nat|
                    l < numel(lead_of(input.shape@)) ==> #[trigger] out.data@[l as int]
                        == pooled_at(ReduceKind::Max, false, *input, l)
            },
    {
        pool_forward(ReduceKind::Max, false, dev, input)
    }
}

impl MinPoolGlobal {
    /// Each output element is the window's running minimum.
    pub fn try_forward(&self, dev: &mut Cpu, input: &Tensor) -> (r: Result<Tensor, Error>)
        requires
            input.wf(),
            old(dev).next_id < u64::MAX,
        ensures
            r is Ok <==> (input.shape@.len() == 3 || input.shape@.len() == 4),
            r is Err ==> r == Err::<Tensor, Error>(Error::ShapeMismatch),
            r matches Ok(out) ==> {
                &&& out.wf()
                &&& out.id == old(dev).next_id
                &&& final(dev).next_id == old(dev).next_id + 1
                &&& out.shape@ == lead_of(input.shape@)
                &&& out.data@.len() == numel(lead_of(input.shape@))
                &&& forall|l: nat|
                    l < numel(lead_of(input.shape@)) ==> #[trigger] out.data@[l as int]
                        == pooled_at(ReduceKind::Min, false, *input, l)
            },
    {
        pool_forward(ReduceKind::Min, false, dev, input)
    }
}

} // verus!
