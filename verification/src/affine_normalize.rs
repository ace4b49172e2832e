//! The exemplar differentiable operator: affine normalization.
//!
//! Given input `x`, an optional precomputed `mean` (absent means "no
//! centering"), `var`, `scale`, `bias`, and a stability constant `epsilon`,
//! the forward pass computes, element by element,
//!
//! ```text
//! std = sqrt(var + epsilon)
//! y   = (x - mean_or_zero) * scale / std + bias
//! ```
//!
//! All five operands share one logical shape; each is walked by its own
//! strided cursor, so a parameter tensor whose strides are zero broadcasts
//! one stored value across the whole shape.
//!
//! The backward pass accumulates (adds, never overwrites) into the gradient
//! buffers, per element:
//!
//! ```text
//! centered     = x - mean_or_zero
//! std          = sqrt(var + epsilon)
//! v            = (var + epsilon)^1.5        (computed as std * std * std)
//! grad_x      += grad_y * scale / std
//! grad_mean   -= grad_y * scale / std          (only if mean is present)
//! grad_var    -= grad_y * centered * scale / (v + v)
//! grad_scale  += grad_y * centered / std
//! grad_bias   += grad_y
//! ```

use vstd::prelude::*;
use vstd::pervasive::unreached;
use crate::scalar::add_bits;
use crate::scalar::div_bits;
use crate::scalar::mul_bits;
use crate::scalar::sqrt_bits;
use crate::scalar::sub_bits;
use crate::shape::contig_of;
use crate::shape::numel;
use crate::shape::offset_of;
use crate::tape::gref;
use crate::tape::BackwardJob;
use crate::tape::Traced;
use crate::tensor::Tensor;
use crate::Error;

verus! {

/// The input tensor of a forward call, whichever way it was passed: owned
/// (in-place eligible) or borrowed (preserved for backward).
pub open spec fn arg_x(x: Result<Tensor, &Tensor>) -> Tensor {
    match x {
        Ok(t) => t,
        Err(t) => *t,
    }
}

/// An optional borrowed operand, as a value.
pub open spec fn opt_tensor(m: Option<&Tensor>) -> Option<Tensor> {
    match m {
        Some(t) => Some(*t),
        None => None,
    }
}

/// Every present operand shares `x`'s logical shape.
pub open spec fn shapes_ok(
    x: Tensor,
    mean: Option<Tensor>,
    var: Tensor,
    scale: Tensor,
    bias: Tensor,
) -> bool {
    &&& match mean {
        Some(m) => m.shape@ == x.shape@,
        None => true,
    }
    &&& var.shape@ == x.shape@
    &&& scale.shape@ == x.shape@
    &&& bias.shape@ == x.shape@
}

/// Every present operand is well-formed.
pub open spec fn operands_wf(x: Tensor, mean: Option<Tensor>, var: Tensor, scale: Tensor, bias: Tensor) -> bool {
    &&& x.wf()
    &&& match mean {
        Some(m) => m.wf(),
        None => true,
    }
    &&& var.wf()
    &&& scale.wf()
    &&& bias.wf()
}

/// The centered value: `x - mean`, or `x` itself when no mean is given.
pub open spec fn centered_elem(x: u16, mean: Option<u16>) -> u16 {
    match mean {
        Some(m) => sub_bits(x, m),
        None => x,
    }
}

/// `sqrt(var + epsilon)`.
pub open spec fn std_elem(var: u16, eps: u16) -> u16 {
    sqrt_bits(add_bits(var, eps))
}

/// One output element of the forward pass.
pub open spec fn fwd_elem(x: u16, mean: Option<u16>, var: u16, scale: u16, bias: u16, eps: u16) -> u16 {
    add_bits(div_bits(mul_bits(centered_elem(x, mean), scale), std_elem(var, eps)), bias)
}

/// The element the optional mean holds at logical position `p`.
pub open spec fn mean_at(mean: Option<Tensor>, p: nat) -> Option<u16> {
    match mean {
        Some(m) => Some(m.elem(p)),
        None => None,
    }
}

/// The forward output at logical position `p`.
pub open spec fn fwd_at(
    x: Tensor,
    mean: Option<Tensor>,
    var: Tensor,
    scale: Tensor,
    bias: Tensor,
    eps: u16,
    p: nat,
) -> u16 {
    fwd_elem(x.elem(p), mean_at(mean, p), var.elem(p), scale.elem(p), bias.elem(p), eps)
}

/// The contribution `grad_y * scale / std` at position `p`: added into
/// `grad_x`, subtracted from `grad_mean`.
pub open spec fn dx_at(x: Tensor, var: Tensor, scale: Tensor, eps: u16, gout: Seq<u16>, p: nat) -> u16 {
    div_bits(mul_bits(gout[p as int], scale.elem(p)), std_elem(var.elem(p), eps))
}

/// `v = (var + epsilon)^1.5`, computed as the cube of the square root:
/// `std * std * std`. The power itself has no IEEE-determined rounding, so
/// it is built from the operations that do.
pub open spec fn v_elem(var: u16, eps: u16) -> u16 {
    mul_bits(mul_bits(std_elem(var, eps), std_elem(var, eps)), std_elem(var, eps))
}

/// The contribution `grad_y * centered * scale / (v + v)` at position `p`,
/// with `v = (var + epsilon)^1.5`: subtracted from `grad_var`.
pub open spec fn dvar_at(
    x: Tensor,
    mean: Option<Tensor>,
    var: Tensor,
    scale: Tensor,
    eps: u16,
    gout: Seq<u16>,
    p: nat,
) -> u16 {
    div_bits(
        mul_bits(
            mul_bits(gout[p as int], centered_elem(x.elem(p), mean_at(mean, p))),
            scale.elem(p),
        ),
        add_bits(v_elem(var.elem(p), eps), v_elem(var.elem(p), eps)),
    )
}

/// The contribution `grad_y * centered / std` at position `p`: added into
/// `grad_scale`.
pub open spec fn dscale_at(
    x: Tensor,
    mean: Option<Tensor>,
    var: Tensor,
    eps: u16,
    gout: Seq<u16>,
    p: nat,
) -> u16 {
    div_bits(
        mul_bits(gout[p as int], centered_elem(x.elem(p), mean_at(mean, p))),
        std_elem(var.elem(p), eps),
    )
}

/// A buffer after the first `n` positions have accumulated into it: each
/// step reads the buffer at that position's strided offset and adds (or
/// subtracts) that position's contribution. Order matters bit-for-bit, so
/// the fold is sequential.
pub open spec fn fold_accum(
    init: Seq<u16>,
    offs: spec_fn(int) -> int,
    delta: spec_fn(int) -> u16,
    subtract: bool,
    n: nat,
) -> Seq<u16>
    decreases n,
{
    if n == 0 {
        init
    } else {
        let prev = fold_accum(init, offs, delta, subtract, (n - 1) as nat);
        let o = offs(n - 1);
        let d = delta(n - 1);
        prev.update(
            o,
            if subtract {
                sub_bits(prev[o], d)
            } else {
                add_bits(prev[o], d)
            },
        )
    }
}

/// Accumulating at in-range offsets preserves a buffer's length.
pub proof fn lemma_fold_accum_len(
    init: Seq<u16>,
    offs: spec_fn(int) -> int,
    delta: spec_fn(int) -> u16,
    subtract: bool,
    n: nat,
)
    requires
        forall|k: int| 0 <= k < n ==> 0 <= #[trigger] offs(k) < init.len(),
    ensures
        fold_accum(init, offs, delta, subtract, n).len() == init.len(),
    decreases n,
{
    if n > 0 {
        lemma_fold_accum_len(init, offs, delta, subtract, (n - 1) as nat);
    }
}

/// `grad_x` after the first `n` positions of the backward pass.
pub open spec fn grad_x_after(
    x: Tensor,
    var: Tensor,
    scale: Tensor,
    eps: u16,
    gout: Seq<u16>,
    init: Seq<u16>,
    n: nat,
) -> Seq<u16> {
    fold_accum(
        init,
        |p: int| offset_of(p as nat, x.shape@, x.strides@) as int,
        |p: int| dx_at(x, var, scale, eps, gout, p as nat),
        false,
        n,
    )
}

/// `grad_mean` after the first `n` positions of the backward pass (only
/// meaningful when a mean was given).
pub open spec fn grad_mean_after(
    x: Tensor,
    mean: Tensor,
    var: Tensor,
    scale: Tensor,
    eps: u16,
    gout: Seq<u16>,
    init: Seq<u16>,
    n: nat,
) -> Seq<u16> {
    fold_accum(
        init,
        |p: int| offset_of(p as nat, mean.shape@, mean.strides@) as int,
        |p: int| dx_at(x, var, scale, eps, gout, p as nat),
        true,
        n,
    )
}

/// `grad_var` after the first `n` positions of the backward pass.
pub open spec fn grad_var_after(
    x: Tensor,
    mean: Option<Tensor>,
    var: Tensor,
    scale: Tensor,
    eps: u16,
    gout: Seq<u16>,
    init: Seq<u16>,
    n: nat,
) -> Seq<u16> {
    fold_accum(
        init,
        |p: int| offset_of(p as nat, var.shape@, var.strides@) as int,
        |p: int| dvar_at(x, mean, var, scale, eps, gout, p as nat),
        true,
        n,
    )
}

/// `grad_scale` after the first `n` positions of the backward pass.
pub open spec fn grad_scale_after(
    x: Tensor,
    mean: Option<Tensor>,
    var: Tensor,
    scale: Tensor,
    eps: u16,
    gout: Seq<u16>,
    init: Seq<u16>,
    n: nat,
) -> Seq<u16> {
    fold_accum(
        init,
        |p: int| offset_of(p as nat, scale.shape@, scale.strides@) as int,
        |p: int| dscale_at(x, mean, var, eps, gout, p as nat),
        false,
        n,
    )
}

/// `grad_bias` after the first `n` positions of the backward pass.
pub open spec fn grad_bias_after(
    bias: Tensor,
    gout: Seq<u16>,
    init: Seq<u16>,
    n: nat,
) -> Seq<u16> {
    fold_accum(
        init,
        |p: int| offset_of(p as nat, bias.shape@, bias.strides@) as int,
        |p: int| gout[p],
        false,
        n,
    )
}

/// One backend's forward/backward implementation of affine normalization.
/// Every backend computes the same mathematics, stated below once for all
/// implementations; a backend whose kernels cannot fail on well-shaped
/// inputs says so through `never_fails`.
pub trait AffineNormalizeKernel: Sized {
    /// The backend's creation mark: every tensor identity it has handed out
    /// is strictly below this, and it only grows.
    spec fn id_mark(&self) -> u64;

    /// Whether this backend's kernels always succeed on well-shaped inputs
    /// (a device that compiles kernels lazily, say, may fail to).
    spec fn never_fails(&self) -> bool;

    /// The forward pass. `x` arrives owned when the caller permits reuse of
    /// its storage (in-place eligible), borrowed when the tape still needs
    /// the original values. Either way the output carries a fresh identity,
    /// so a storage-reusing output can never alias a gradient slot of its
    /// input. Fails with `ShapeMismatch` exactly when some operand does not
    /// share `x`'s logical shape.
    fn forward(
        &mut self,
        x: Result<Tensor, &Tensor>,
        mean: Option<&Tensor>,
        var: &Tensor,
        scale: &Tensor,
        bias: &Tensor,
        epsilon: u16,
    ) -> (r: Result<Tensor, Error>)
        requires
            operands_wf(arg_x(x), opt_tensor(mean), *var, *scale, *bias),
            old(self).id_mark() < u64::MAX,
        ensures
            r is Ok ==> final(self).id_mark() == old(self).id_mark() + 1,
            r is Err ==> final(self).id_mark() == old(self).id_mark(),
            !shapes_ok(arg_x(x), opt_tensor(mean), *var, *scale, *bias) ==> r == Err::<
                Tensor,
                Error,
            >(Error::ShapeMismatch),
            old(self).never_fails() && shapes_ok(arg_x(x), opt_tensor(mean), *var, *scale, *bias)
                ==> r is Ok,
            r matches Ok(out) ==> {
                &&& shapes_ok(arg_x(x), opt_tensor(mean), *var, *scale, *bias)
                &&& out.wf()
                &&& out.id == old(self).id_mark()
                &&& out.shape@ == arg_x(x).shape@
                &&& out.strides@ == contig_of(arg_x(x).shape@)
                &&& out.data@.len() == numel(arg_x(x).shape@)
                &&& out.dev == arg_x(x).dev
                &&& forall|p: nat|
                    p < numel(arg_x(x).shape@) ==> #[trigger] out.data@[p as int] == fwd_at(
                        arg_x(x),
                        opt_tensor(mean),
                        *var,
                        *scale,
                        *bias,
                        epsilon,
                        p,
                    )
            },
    ;

    /// The backward pass: accumulates each position's contributions into the
    /// gradient buffers at that position's strided offsets, in row-major
    /// position order. `grad_mean` is present exactly when `mean` is; when
    /// absent, no mean gradient is touched and the centered value degenerates
    /// to `x`.
    fn backward(
        &self,
        x: &Tensor,
        grad_x: &mut Vec<u16>,
        mean: Option<&Tensor>,
        grad_mean: &mut Option<Vec<u16>>,
        var: &Tensor,
        grad_var: &mut Vec<u16>,
        scale: &Tensor,
        grad_scale: &mut Vec<u16>,
        bias: &Tensor,
        grad_bias: &mut Vec<u16>,
        epsilon: u16,
        grad_out: &Vec<u16>,
    ) -> (r: Result<(), Error>)
        requires
            operands_wf(*x, opt_tensor(mean), *var, *scale, *bias),
            shapes_ok(*x, opt_tensor(mean), *var, *scale, *bias),
            grad_out@.len() == numel(x.shape@),
            old(grad_x)@.len() == x.data@.len(),
            mean is Some <==> *old(grad_mean) is Some,
            mean matches Some(m) ==> *old(grad_mean) matches Some(gm) && gm@.len()
                == m.data@.len(),
            old(grad_var)@.len() == var.data@.len(),
            old(grad_scale)@.len() == scale.data@.len(),
            old(grad_bias)@.len() == bias.data@.len(),
        ensures
            self.never_fails() ==> r is Ok,
            r is Ok ==> {
                &&& final(grad_x)@ == grad_x_after(
                    *x,
                    *var,
                    *scale,
                    epsilon,
                    grad_out@,
                    old(grad_x)@,
                    numel(x.shape@),
                )
                &&& match mean {
                    Some(m) => *old(grad_mean) matches Some(gm0) && *final(grad_mean) matches Some(
                        gm1,
                    ) && gm1@ == grad_mean_after(
                        *x,
                        *m,
                        *var,
                        *scale,
                        epsilon,
                        grad_out@,
                        gm0@,
                        numel(x.shape@),
                    ),
                    None => *final(grad_mean) is None,
                }
                &&& final(grad_var)@ == grad_var_after(
                    *x,
                    opt_tensor(mean),
                    *var,
                    *scale,
                    epsilon,
                    grad_out@,
                    old(grad_var)@,
                    numel(x.shape@),
                )
                &&& final(grad_scale)@ == grad_scale_after(
                    *x,
                    opt_tensor(mean),
                    *var,
                    *scale,
                    epsilon,
                    grad_out@,
                    old(grad_scale)@,
                    numel(x.shape@),
                )
                &&& final(grad_bias)@ == grad_bias_after(
                    *bias,
                    grad_out@,
                    old(grad_bias)@,
                    numel(x.shape@),
                )
            },
    ;
}

/// The tensors under an optional traced operand.
pub open spec fn t_of(m: Option<Traced>) -> Option<Tensor> {
    match m {
        Some(t) => Some(t.tensor),
        None => None,
    }
}

/// Whether any operand's tape owns recording: the merged tape then does.
pub open spec fn merged_owns(
    x: Traced,
    mean: Option<Traced>,
    var: Traced,
    scale: Traced,
    bias: Traced,
) -> bool {
    ||| x.tape.owns
    ||| match mean {
        Some(m) => m.tape.owns,
        None => false,
    }
    ||| var.tape.owns
    ||| scale.tape.owns
    ||| bias.tape.owns
}

/// The concatenation of every operand's recorded jobs, in operand order.
pub open spec fn merged_jobs(
    x: Traced,
    mean: Option<Traced>,
    var: Traced,
    scale: Traced,
    bias: Traced,
) -> Seq<BackwardJob> {
    x.tape.jobs@ + (match mean {
        Some(m) => m.tape.jobs@,
        None => Seq::<BackwardJob>::empty(),
    }) + var.tape.jobs@ + scale.tape.jobs@ + bias.tape.jobs@
}

/// The operands' identities are pairwise distinct and were all handed out
/// by the device (they sit strictly below its creation mark), so the fresh
/// output identity collides with none of them.
pub open spec fn ids_ok(
    x: Tensor,
    mean: Option<Tensor>,
    var: Tensor,
    scale: Tensor,
    bias: Tensor,
    mark: u64,
) -> bool {
    &&& x.id < mark
    &&& var.id < mark
    &&& scale.id < mark
    &&& bias.id < mark
    &&& x.id != var.id
    &&& x.id != scale.id
    &&& x.id != bias.id
    &&& var.id != scale.id
    &&& var.id != bias.id
    &&& scale.id != bias.id
    &&& match mean {
        Some(m) => m.id < mark && m.id != x.id && m.id != var.id && m.id != scale.id && m.id
            != bias.id,
        None => true,
    }
}

/// The public entry point of the differentiable operator: strips and merges
/// the operands' tapes, dispatches the forward kernel with
/// ownership-appropriate aliasing, and — only when the merged tape owns
/// recording — pushes the deferred backward computation.
pub trait TryAffineNormalize: Sized {
    /// What a call needs: valid operands, headroom for one fresh identity
    /// below `mark` (the device's creation mark), and, when recording,
    /// operand identities the device handed out, pairwise distinct.
    spec fn norm_requires(
        self,
        mark: u64,
        mean: Option<Self>,
        var: Self,
        scale: Self,
        bias: Self,
    ) -> bool;

    /// When success is owed: the backend cannot fail and the shapes agree.
    spec fn norm_success(
        self,
        never_fails: bool,
        mean: Option<Self>,
        var: Self,
        scale: Self,
        bias: Self,
    ) -> bool;

    /// What a call does: the forward mathematics of the output, the fresh
    /// identity (`mark0`, the device's mark before the call, which moves to
    /// `mark1`), the merged tape, and the deferred backward computation
    /// pushed exactly when recording is owned.
    spec fn norm_ensures(
        self,
        mark0: u64,
        mark1: u64,
        mean: Option<Self>,
        var: Self,
        scale: Self,
        bias: Self,
        epsilon: u16,
        r: Result<Self, Error>,
    ) -> bool;

    fn try_affine_normalize<D: AffineNormalizeKernel>(
        self,
        dev: &mut D,
        mean: Option<Self>,
        var: Self,
        scale: Self,
        bias: Self,
        epsilon: u16,
    ) -> (r: Result<Self, Error>)
        requires
            self.norm_requires(old(dev).id_mark(), mean, var, scale, bias),
        ensures
            self.norm_ensures(
                old(dev).id_mark(),
                final(dev).id_mark(),
                mean,
                var,
                scale,
                bias,
                epsilon,
                r,
            ),
            self.norm_success(old(dev).never_fails(), mean, var, scale, bias) ==> r is Ok,
    ;

    /// `try_affine_normalize` where success is owed.
    fn affine_normalize<D: AffineNormalizeKernel>(
        self,
        dev: &mut D,
        mean: Option<Self>,
        var: Self,
        scale: Self,
        bias: Self,
        epsilon: u16,
    ) -> (r: Self)
        requires
            self.norm_requires(old(dev).id_mark(), mean, var, scale, bias),
            self.norm_success(old(dev).never_fails(), mean, var, scale, bias),
        ensures
            self.norm_ensures(
                old(dev).id_mark(),
                final(dev).id_mark(),
                mean,
                var,
                scale,
                bias,
                epsilon,
                Ok(r),
            ),
    {
        let r = self.try_affine_normalize(dev, mean, var, scale, bias, epsilon);
        match r {
            Ok(t) => t,
            Err(_) => unreached(),
        }
    }
}

impl TryAffineNormalize for Traced {
    open spec fn norm_requires(
        self,
        mark: u64,
        mean: Option<Traced>,
        var: Traced,
        scale: Traced,
        bias: Traced,
    ) -> bool {
        &&& self.wf()
        &&& match mean {
            Some(m) => m.wf(),
            None => true,
        }
        &&& var.wf()
        &&& scale.wf()
        &&& bias.wf()
        &&& mark < u64::MAX
        &&& merged_owns(self, mean, var, scale, bias) ==> ids_ok(
            self.tensor,
            t_of(mean),
            var.tensor,
            scale.tensor,
            bias.tensor,
            mark,
        )
    }

    open spec fn norm_success(
        self,
        never_fails: bool,
        mean: Option<Traced>,
        var: Traced,
        scale: Traced,
        bias: Traced,
    ) -> bool {
        never_fails && shapes_ok(
            self.tensor,
            t_of(mean),
            var.tensor,
            scale.tensor,
            bias.tensor,
        )
    }

    open spec fn norm_ensures(
        self,
        mark0: u64,
        mark1: u64,
        mean: Option<Traced>,
        var: Traced,
        scale: Traced,
        bias: Traced,
        epsilon: u16,
        r: Result<Traced, Error>,
    ) -> bool {
        &&& (!shapes_ok(self.tensor, t_of(mean), var.tensor, scale.tensor, bias.tensor) ==> r
            == Err::<Traced, Error>(Error::ShapeMismatch))
        &&& (r is Err ==> mark1 == mark0)
        &&& match r {
            Ok(out) => {
                &&& shapes_ok(self.tensor, t_of(mean), var.tensor, scale.tensor, bias.tensor)
                &&& out.wf()
                &&& out.tensor.id == mark0
                &&& mark1 == mark0 + 1
                &&& out.tensor.shape@ == self.tensor.shape@
                &&& out.tensor.strides@ == contig_of(self.tensor.shape@)
                &&& out.tensor.data@.len() == numel(self.tensor.shape@)
                &&& out.tensor.dev == self.tensor.dev
                &&& forall|p: nat|
                    p < numel(self.tensor.shape@) ==> #[trigger] out.tensor.data@[p as int]
                        == fwd_at(
                        self.tensor,
                        t_of(mean),
                        var.tensor,
                        scale.tensor,
                        bias.tensor,
                        epsilon,
                        p,
                    )
                &&& out.tape.owns == merged_owns(self, mean, var, scale, bias)
                &&& out.tape.jobs@ == (if merged_owns(self, mean, var, scale, bias) {
                    merged_jobs(self, mean, var, scale, bias).push(
                        (BackwardJob {
                            x: self.tensor,
                            mean: t_of(mean),
                            var: var.tensor,
                            scale: scale.tensor,
                            bias: bias.tensor,
                            epsilon,
                            out: gref(out.tensor),
                        }),
                    )
                } else {
                    merged_jobs(self, mean, var, scale, bias)
                })
            },
            Err(_) => true,
        }
    }

    fn try_affine_normalize<D: AffineNormalizeKernel>(
        self,
        dev: &mut D,
        mean: Option<Traced>,
        var: Traced,
        scale: Traced,
        bias: Traced,
        epsilon: u16,
    ) -> (r: Result<Traced, Error>) {
        let ghost self0 = self;
        let ghost mean0 = mean;
        let ghost var0 = var;
        let ghost scale0 = scale;
        let ghost bias0 = bias;
        let (inp, mut tape) = self.split_tape();
        let mean_t: Option<Tensor> = match mean {
            Some(m) => {
                let (mt, mtape) = m.split_tape();
                tape = tape.merge(mtape);
                Some(mt)
            },
            None => None,
        };
        let (var_t, var_tape) = var.split_tape();
        tape = tape.merge(var_tape);
        let (scale_t, scale_tape) = scale.split_tape();
        tape = tape.merge(scale_tape);
        let (bias_t, bias_tape) = bias.split_tape();
        tape = tape.merge(bias_tape);
        proof {
            assert(tape.jobs@ =~= merged_jobs(self0, mean0, var0, scale0, bias0));
            assert(tape.owns == merged_owns(self0, mean0, var0, scale0, bias0));
        }
        let mean_ref: Option<&Tensor> = match &mean_t {
            Some(mt) => Some(mt),
            None => None,
        };
        if !tape.is_recording() {
            let out = match dev.forward(Ok(inp), mean_ref, &var_t, &scale_t, &bias_t, epsilon) {
                Ok(o) => o,
                Err(e) => {
                    return Err(e);
                },
            };
            Ok(out.put_tape(tape))
        } else {
            let out = match dev.forward(Err(&inp), mean_ref, &var_t, &scale_t, &bias_t, epsilon) {
                Ok(o) => o,
                Err(e) => {
                    return Err(e);
                },
            };
            let out_gh = out.ghost_ref();
            let job = BackwardJob {
                x: inp,
                mean: mean_t,
                var: var_t,
                scale: scale_t,
                bias: bias_t,
                epsilon,
                out: out_gh,
            };
            proof {
                assert(job.wf());
            }
            tape.add_backward_op(job);
            Ok(out.put_tape(tape))
        }
    }
}

} // verus!
