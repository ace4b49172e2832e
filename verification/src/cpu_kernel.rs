//! The CPU backend's affine-normalization kernels.

use vstd::prelude::*;
use vstd::pervasive::unreached;
use crate::affine_normalize::dscale_at;
use crate::affine_normalize::dvar_at;
use crate::affine_normalize::dx_at;
use crate::affine_normalize::fwd_at;
use crate::affine_normalize::fwd_elem;
use crate::affine_normalize::grad_bias_after;
use crate::affine_normalize::grad_mean_after;
use crate::affine_normalize::grad_scale_after;
use crate::affine_normalize::grad_var_after;
use crate::affine_normalize::grad_x_after;
use crate::affine_normalize::operands_wf;
use crate::affine_normalize::opt_tensor;
use crate::affine_normalize::shapes_ok;
use crate::affine_normalize::AffineNormalizeKernel;
use crate::scalar::bf_add;
use crate::scalar::bf_div;
use crate::scalar::bf_mul;
use crate::scalar::bf_sqrt;
use crate::scalar::bf_sub;
use crate::shape::contig_of;
use crate::shape::contig_strides;
use crate::shape::lemma_offset_contig;
use crate::shape::numel;
use crate::shape::numel_of;
use crate::shape::offset_at;
use crate::shape::offset_of;
use crate::shape::same_dims;
use crate::tensor::Cpu;
use crate::tensor::Tensor;
use crate::Error;

verus! {

/// One forward element, computed.
fn fwd_exec(x: u16, mean: Option<u16>, var: u16, scale: u16, bias: u16, eps: u16) -> (r: u16)
    ensures
        r == fwd_elem(x, mean, var, scale, bias, eps),
{
    let c = match mean {
        Some(m) => bf_sub(x, m),
        None => x,
    };
    let s = bf_sqrt(bf_add(var, eps));
    bf_add(bf_div(bf_mul(c, scale), s), bias)
}

/// Whether every operand shares `x`'s logical shape.
fn check_shapes(
    x: &Tensor,
    mean: Option<&Tensor>,
    var: &Tensor,
    scale: &Tensor,
    bias: &Tensor,
) -> (r: bool)
    ensures
        r == shapes_ok(*x, opt_tensor(mean), *var, *scale, *bias),
{
    let ok_mean = match mean {
        Some(m) => same_dims(&m.shape, &x.shape),
        None => true,
    };
    ok_mean && same_dims(&var.shape, &x.shape) && same_dims(&scale.shape, &x.shape) && same_dims(
        &bias.shape,
        &x.shape,
    )
}

/// The forward pass into a freshly allocated output buffer, reading `x`
/// through its own strided cursor.
#[verifier::loop_isolation(false)]
fn forward_fresh(
    dev: &mut Cpu,
    x: &Tensor,
    mean: Option<&Tensor>,
    var: &Tensor,
    scale: &Tensor,
    bias: &Tensor,
    eps: u16,
) -> (r: Tensor)
    requires
        operands_wf(*x, opt_tensor(mean), *var, *scale, *bias),
        shapes_ok(*x, opt_tensor(mean), *var, *scale, *bias),
        old(dev).next_id < u64::MAX,
    ensures
        final(dev).next_id == old(dev).next_id + 1,
        r.wf(),
        r.id == old(dev).next_id,
        r.shape@ == x.shape@,
        r.strides@ == contig_of(x.shape@),
        r.data@.len() == numel(x.shape@),
        r.dev == x.dev,
        forall|p: nat|
            p < numel(x.shape@) ==> #[trigger] r.data@[p as int] == fwd_at(
                *x,
                opt_tensor(mean),
                *var,
                *scale,
                *bias,
                eps,
                p,
            ),
{
    let n = numel_of(&x.shape);
    let mut out = match dev.try_zeros_like(&x.shape) {
        Ok(t) => t,
        Err(_) => unreached(),
    };
    let mut pos: usize = 0;
    while pos < n
        invariant
            pos <= n,
            out.wf(),
            out.id == old(dev).next_id,
            out.shape@ == x.shape@,
            out.strides@ == contig_of(x.shape@),
            out.data@.len() == n,
            out.dev == x.dev,
            forall|p: nat|
                p < pos ==> #[trigger] out.data@[p as int] == fwd_at(
                    *x,
                    opt_tensor(mean),
                    *var,
                    *scale,
                    *bias,
                    eps,
                    p,
                ),
        decreases n - pos,
    {
        let xv = x.read(pos);
        let mv = match mean {
            Some(m) => Some(m.read(pos)),
            None => None,
        };
        let vv = var.read(pos);
        let sv = scale.read(pos);
        let bv = bias.read(pos);
        let y = fwd_exec(xv, mv, vv, sv, bv, eps);
        out.data[pos] = y;
        pos = pos + 1;
    }
    out
}

impl AffineNormalizeKernel for Cpu {
    open spec fn id_mark(&self) -> u64 {
        self.next_id
    }

    open spec fn never_fails(&self) -> bool {
        true
    }

    #[verifier::loop_isolation(false)]
    fn forward(
        &mut self,
        x: Result<Tensor, &Tensor>,
        mean: Option<&Tensor>,
        var: &Tensor,
        scale: &Tensor,
        bias: &Tensor,
        epsilon: u16,
    ) -> (r: Result<Tensor, Error>) {
        let shapes_fine = match &x {
            Ok(t) => check_shapes(t, mean, var, scale, bias),
            Err(t) => check_shapes(t, mean, var, scale, bias),
        };
        if !shapes_fine {
            return Err(Error::ShapeMismatch);
        }
        match x {
            Ok(t) => {
                let contig = contig_strides(&t.shape);
                let n_all = numel_of(&t.shape);
                if same_dims(&t.strides, &contig) && t.data.len() == n_all {
                    // In-place eligible: overwrite the owned buffer, walking
                    // it linearly, and mint a fresh identity for the result.
                    let ghost x0 = t;
                    let mut out = t;
                    let n = numel_of(&out.shape);
                    proof {
                        assert forall|p: nat| p < numel(x0.shape@) implies offset_of(
                            p,
                            x0.shape@,
                            x0.strides@,
                        ) == p by {
                            lemma_offset_contig(p, x0.shape@);
                        }
                        assert(x0.data@.len() == n);
                    }
                    let mut pos: usize = 0;
                    while pos < n
                        invariant
                            pos <= n,
                            out.shape@ == x0.shape@,
                            out.strides@ == x0.strides@,
                            out.data@.len() == n,
                            out.id == x0.id,
                            out.dev == x0.dev,
                            forall|p: nat|
                                pos <= p < n ==> #[trigger] out.data@[p as int] == x0.data@[
                                    p as int
                                ],
                            forall|p: nat|
                                p < pos ==> #[trigger] out.data@[p as int] == fwd_at(
                                    x0,
                                    opt_tensor(mean),
                                    *var,
                                    *scale,
                                    *bias,
                                    epsilon,
                                    p,
                                ),
                        decreases n - pos,
                    {
                        let xv = out.data[pos];
                        proof {
                            assert(xv == x0.elem(pos as nat));
                        }
                        let mv = match mean {
                            Some(m) => Some(m.read(pos)),
                            None => None,
                        };
                        let vv = var.read(pos);
                        let sv = scale.read(pos);
                        let bv = bias.read(pos);
                        let y = fwd_exec(xv, mv, vv, sv, bv, epsilon);
                        out.data[pos] = y;
                        pos = pos + 1;
                    }
                    out.id = self.fresh_id();
                    Ok(out)
                } else {
                    let out = forward_fresh(self, &t, mean, var, scale, bias, epsilon);
                    Ok(out)
                }
            },
            Err(xr) => {
                let out = forward_fresh(self, xr, mean, var, scale, bias, epsilon);
                Ok(out)
            },
        }
    }

    #[verifier::loop_isolation(false)]
    fn backward(
        &self,
        x: &Tensor,
        grad_x: &mut Vec<u16>,
        mean: Option<&Tensor>,
        grad_mean: &mut Option<Vec<u16>>,
        var: &Tensor,
        grad_var: &mut Vec<u16>,
        scale: &Tensor,
        grad_scale: &mut Vec<u16>,
        bias: &Tensor,
        grad_bias: &mut Vec<u16>,
        epsilon: u16,
        grad_out: &Vec<u16>,
    ) -> (r: Result<(), Error>) {
        let ghost gx0 = old(grad_x)@;
        let ghost gm0 = *old(grad_mean);
        let ghost gv0 = old(grad_var)@;
        let ghost gs0 = old(grad_scale)@;
        let ghost gb0 = old(grad_bias)@;
        let xl = x.data.len();
        let vl = var.data.len();
        let sl = scale.data.len();
        let bl = bias.data.len();
        let n = numel_of(&x.shape);
        let mut pos: usize = 0;
        while pos < n
            invariant
                pos <= n,
                grad_x@ == grad_x_after(*x, *var, *scale, epsilon, grad_out@, gx0, pos as nat),
                grad_x@.len() == x.data@.len(),
                match mean {
                    Some(m) => gm0 matches Some(g0) && *grad_mean matches Some(gm) && gm@
                        == grad_mean_after(
                        *x,
                        *m,
                        *var,
                        *scale,
                        epsilon,
                        grad_out@,
                        g0@,
                        pos as nat,
                    ) && gm@.len() == m.data@.len(),
                    None => *grad_mean is None,
                },
                grad_var@ == grad_var_after(
                    *x,
                    opt_tensor(mean),
                    *var,
                    *scale,
                    epsilon,
                    grad_out@,
                    gv0,
                    pos as nat,
                ),
                grad_var@.len() == var.data@.len(),
                grad_scale@ == grad_scale_after(
                    *x,
                    opt_tensor(mean),
                    *var,
                    *scale,
                    epsilon,
                    grad_out@,
                    gs0,
                    pos as nat,
                ),
                grad_scale@.len() == scale.data@.len(),
                grad_bias@ == grad_bias_after(*bias, grad_out@, gb0, pos as nat),
                grad_bias@.len() == bias.data@.len(),
            decreases n - pos,
        {
            let gy = grad_out[pos];
            let xv = x.read(pos);
            let vv = var.read(pos);
            let sv = scale.read(pos);
            let c = match mean {
                Some(m) => bf_sub(xv, m.read(pos)),
                None => xv,
            };
            let stdv = bf_sqrt(bf_add(vv, epsilon));
            let dx = bf_div(bf_mul(gy, sv), stdv);
            proof {
                assert(dx == dx_at(*x, *var, *scale, epsilon, grad_out@, pos as nat));
            }
            let xo = offset_at(&x.shape, &x.strides, pos);
            let cur_x = grad_x[xo];
            grad_x[xo] = bf_add(cur_x, dx);
            match mean {
                Some(m) => {
                    let ml = m.data.len();
                    proof {
                        assert(offset_of(pos as nat, m.shape@, m.strides@) < ml);
                    }
                    let mo = offset_at(&m.shape, &m.strides, pos);
                    match grad_mean {
                        Some(gm) => {
                            let cur_m = gm[mo];
                            gm[mo] = bf_sub(cur_m, dx);
                        },
                        None => {
                            unreached::<()>();
                        },
                    }
                },
                None => {},
            }
            let vo = offset_at(&var.shape, &var.strides, pos);
            let v2 = bf_mul(bf_mul(stdv, stdv), stdv);
            let dv = bf_div(bf_mul(bf_mul(gy, c), sv), bf_add(v2, v2));
            proof {
                assert(dv == dvar_at(
                    *x,
                    opt_tensor(mean),
                    *var,
                    *scale,
                    epsilon,
                    grad_out@,
                    pos as nat,
                ));
            }
            let cur_v = grad_var[vo];
            grad_var[vo] = bf_sub(cur_v, dv);
            let so = offset_at(&scale.shape, &scale.strides, pos);
            let ds = bf_div(bf_mul(gy, c), stdv);
            proof {
                assert(ds == dscale_at(
                    *x,
                    opt_tensor(mean),
                    *var,
                    epsilon,
                    grad_out@,
                    pos as nat,
                ));
            }
            let cur_s = grad_scale[so];
            grad_scale[so] = bf_add(cur_s, ds);
            let bo = offset_at(&bias.shape, &bias.strides, pos);
            let cur_b = grad_bias[bo];
            grad_bias[bo] = bf_add(cur_b, gy);
            pos = pos + 1;
        }
        Ok(())
    }
}

} // verus!
