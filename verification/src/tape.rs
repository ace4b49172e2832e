//! The gradient tape: an ordered record of deferred backward computations,
//! grown during forward evaluation and replayed exactly once, in strict
//! reverse insertion order, during a backward pass.

use vstd::prelude::*;
use vstd::pervasive::unreached;
use crate::affine_normalize::grad_bias_after;
use crate::affine_normalize::grad_mean_after;
use crate::affine_normalize::grad_scale_after;
use crate::affine_normalize::grad_var_after;
use crate::affine_normalize::grad_x_after;
use crate::affine_normalize::lemma_fold_accum_len;
use crate::affine_normalize::operands_wf;
use crate::affine_normalize::shapes_ok;
use crate::affine_normalize::AffineNormalizeKernel;
use crate::shape::numel;
use crate::shape::offset_of;
use crate::store::alloc_spec;
use crate::store::Gradients;
use crate::tensor::GhostRef;
use crate::tensor::Tensor;
use crate::Error;

verus! {

/// The ghost reference a tensor would hand out.
pub open spec fn gref(t: Tensor) -> GhostRef {
    GhostRef { id: t.id, len: t.data@.len() as usize, dev: t.dev }
}

/// One deferred backward computation. The operator kind is affine
/// normalization (the one operator of this crate); the record captures the
/// operand tensors it closes over, the scalar epsilon, and the ghost
/// reference of the forward output whose gradient it consumes.
pub struct BackwardJob {
    pub x: Tensor,
    pub mean: Option<Tensor>,
    pub var: Tensor,
    pub scale: Tensor,
    pub bias: Tensor,
    pub epsilon: u16,
    pub out: GhostRef,
}

impl BackwardJob {
    /// The gradient-buffer length this job expects for an identity it
    /// touches, or `None` for identities it does not.
    pub open spec fn len_of(self, id: u64) -> Option<nat> {
        if id == self.x.id {
            Some(self.x.data@.len())
        } else if id == self.var.id {
            Some(self.var.data@.len())
        } else if id == self.scale.id {
            Some(self.scale.data@.len())
        } else if id == self.bias.id {
            Some(self.bias.data@.len())
        } else if id == self.out.id {
            Some(self.out.len as nat)
        } else {
            match self.mean {
                Some(m) => if id == m.id {
                    Some(m.data@.len())
                } else {
                    None
                },
                None => None,
            }
        }
    }

    /// Whether this job reads or writes the gradient slot of an identity.
    pub open spec fn touches(self, id: u64) -> bool {
        self.len_of(id) is Some
    }

    /// Well-formed: operands are valid and share one logical shape, the
    /// output gradient is sized to that shape, and the slots this job takes
    /// for exclusive mutation are pairwise distinct.
    pub open spec fn wf(self) -> bool {
        &&& operands_wf(self.x, self.mean, self.var, self.scale, self.bias)
        &&& shapes_ok(self.x, self.mean, self.var, self.scale, self.bias)
        &&& self.out.len == numel(self.x.shape@)
        &&& self.x.id != self.var.id
        &&& self.x.id != self.scale.id
        &&& self.x.id != self.bias.id
        &&& self.x.id != self.out.id
        &&& self.var.id != self.scale.id
        &&& self.var.id != self.bias.id
        &&& self.var.id != self.out.id
        &&& self.scale.id != self.bias.id
        &&& self.scale.id != self.out.id
        &&& self.bias.id != self.out.id
        &&& match self.mean {
            Some(m) => m.id != self.x.id && m.id != self.var.id && m.id != self.scale.id && m.id
                != self.bias.id && m.id != self.out.id,
            None => true,
        }
    }
}

/// The store after this job's allocate-if-absent calls, made in the order
/// the replay makes them.
pub open spec fn job_allocs(j: BackwardJob, m: Map<u64, Seq<u16>>) -> Map<u64, Seq<u16>> {
    let m1 = alloc_spec(m, gref(j.x));
    let m2 = match j.mean {
        Some(me) => alloc_spec(m1, gref(me)),
        None => m1,
    };
    let m3 = alloc_spec(m2, gref(j.var));
    let m4 = alloc_spec(m3, gref(j.scale));
    let m5 = alloc_spec(m4, gref(j.bias));
    alloc_spec(m5, j.out)
}

/// The store after one job runs: every input slot is allocated if absent,
/// then accumulated into; the output gradient is read, not changed.
pub open spec fn job_apply(j: BackwardJob, m: Map<u64, Seq<u16>>) -> Map<u64, Seq<u16>> {
    let ma = job_allocs(j, m);
    let gout = ma[j.out.id];
    let n = numel(j.x.shape@);
    let m_x = ma.insert(
        j.x.id,
        grad_x_after(j.x, j.var, j.scale, j.epsilon, gout, ma[j.x.id], n),
    );
    let m_m = match j.mean {
        Some(me) => m_x.insert(
            me.id,
            grad_mean_after(j.x, me, j.var, j.scale, j.epsilon, gout, ma[me.id], n),
        ),
        None => m_x,
    };
    let m_v = m_m.insert(
        j.var.id,
        grad_var_after(j.x, j.mean, j.var, j.scale, j.epsilon, gout, ma[j.var.id], n),
    );
    let m_s = m_v.insert(
        j.scale.id,
        grad_scale_after(j.x, j.mean, j.var, j.scale, j.epsilon, gout, ma[j.scale.id], n),
    );
    m_s.insert(j.bias.id, grad_bias_after(j.bias, gout, ma[j.bias.id], n))
}

/// What a job whose backward call failed leaves behind: its
/// allocate-if-absent calls ran; every identity the job does not touch, and
/// the consumed output gradient, hold exactly what allocation left them; the
/// job's own input slots hold whatever partial accumulation the failing
/// backend call produced, and are not to be trusted.
pub open spec fn partial_after_abort(
    j: BackwardJob,
    m: Map<u64, Seq<u16>>,
    m2: Map<u64, Seq<u16>>,
) -> bool {
    let ma = job_allocs(j, m);
    &&& forall|id: u64|
        !(#[trigger] j.touches(id)) ==> ((m2.dom().contains(id) <==> ma.dom().contains(id)) && (
        ma.dom().contains(id) ==> m2[id] == ma[id]))
    &&& m2.dom().contains(j.x.id)
    &&& m2.dom().contains(j.var.id)
    &&& m2.dom().contains(j.scale.id)
    &&& m2.dom().contains(j.bias.id)
    &&& m2.dom().contains(j.out.id)
    &&& m2[j.out.id] == ma[j.out.id]
}

/// The store after replaying the jobs in strict reverse insertion order:
/// the last-recorded job runs first.
pub open spec fn replay(jobs: Seq<BackwardJob>, m: Map<u64, Seq<u16>>) -> Map<u64, Seq<u16>>
    decreases jobs.len(),
{
    if jobs.len() == 0 {
        m
    } else {
        replay(jobs.drop_last(), job_apply(jobs.last(), m))
    }
}

/// Every buffer the store already holds for a slot this job touches has
/// the length the job expects.
pub open spec fn job_compat(j: BackwardJob, m: Map<u64, Seq<u16>>) -> bool {
    forall|id: u64|
        (#[trigger] j.len_of(id)) matches Some(l) ==> (m.dom().contains(id) ==> m[id].len() == l)
}

/// Any two jobs that touch the same identity expect the same buffer length
/// for it (they captured the same tensor, or clones sharing its buffer).
pub open spec fn jobs_coherent(jobs: Seq<BackwardJob>) -> bool {
    forall|i: int, k: int, id: u64|
        0 <= i < jobs.len() && 0 <= k < jobs.len() && (#[trigger] jobs[i].len_of(id)) is Some && (
        #[trigger] jobs[k].len_of(id)) is Some ==> jobs[i].len_of(id) == jobs[k].len_of(id)
}

/// What one job leaves in the store: exactly the slots it touches join the
/// domain, each with the length the job expects; everything else keeps its
/// contents.
pub proof fn lemma_job_apply_shape(j: BackwardJob, m: Map<u64, Seq<u16>>)
    requires
        j.wf(),
        job_compat(j, m),
    ensures
        forall|id: u64|
            #[trigger] job_apply(j, m).dom().contains(id) <==> (m.dom().contains(id) || j.touches(
                id,
            )),
        forall|id: u64|
            job_apply(j, m).dom().contains(id) ==> job_apply(j, m)[id].len() == (
            match j.len_of(id) {
                Some(l) => l,
                None => m[id].len(),
            }),
        forall|id: u64|
            job_apply(j, m).dom().contains(id) && !j.touches(id) ==> job_apply(j, m)[id] == m[id],
{
    let ma = job_allocs(j, m);
    let n = numel(j.x.shape@);
    let gout = ma[j.out.id];
    assert(j.len_of(j.x.id) == Some(j.x.data@.len()));
    assert(j.len_of(j.var.id) == Some(j.var.data@.len()));
    assert(j.len_of(j.scale.id) == Some(j.scale.data@.len()));
    assert(j.len_of(j.bias.id) == Some(j.bias.data@.len()));
    assert(j.len_of(j.out.id) == Some(j.out.len as nat));
    match j.mean {
        Some(me) => {
            assert(j.len_of(me.id) == Some(me.data@.len()));
        },
        None => {},
    }
    assert(ma[j.x.id].len() == j.x.data@.len());
    assert(ma[j.var.id].len() == j.var.data@.len());
    assert(ma[j.scale.id].len() == j.scale.data@.len());
    assert(ma[j.bias.id].len() == j.bias.data@.len());
    assert(grad_x_after(j.x, j.var, j.scale, j.epsilon, gout, ma[j.x.id], n).len()
        == j.x.data@.len()) by {
        lemma_fold_accum_len(
            ma[j.x.id],
            |p: int| offset_of(p as nat, j.x.shape@, j.x.strides@) as int,
            |p: int| crate::affine_normalize::dx_at(j.x, j.var, j.scale, j.epsilon, gout, p as nat),
            false,
            n,
        );
    }
    match j.mean {
        Some(me) => {
            assert(ma[me.id].len() == me.data@.len());
            assert(numel(me.shape@) == n);
            assert(grad_mean_after(j.x, me, j.var, j.scale, j.epsilon, gout, ma[me.id], n).len()
                == me.data@.len()) by {
                lemma_fold_accum_len(
                    ma[me.id],
                    |p: int| offset_of(p as nat, me.shape@, me.strides@) as int,
                    |p: int| crate::affine_normalize::dx_at(
                        j.x,
                        j.var,
                        j.scale,
                        j.epsilon,
                        gout,
                        p as nat,
                    ),
                    true,
                    n,
                );
            }
        },
        None => {},
    }
    assert(numel(j.var.shape@) == n);
    assert(grad_var_after(j.x, j.mean, j.var, j.scale, j.epsilon, gout, ma[j.var.id], n).len()
        == j.var.data@.len()) by {
        lemma_fold_accum_len(
            ma[j.var.id],
            |p: int| offset_of(p as nat, j.var.shape@, j.var.strides@) as int,
            |p: int| crate::affine_normalize::dvar_at(
                j.x,
                j.mean,
                j.var,
                j.scale,
                j.epsilon,
                gout,
                p as nat,
            ),
            true,
            n,
        );
    }
    assert(numel(j.scale.shape@) == n);
    assert(grad_scale_after(j.x, j.mean, j.var, j.scale, j.epsilon, gout, ma[j.scale.id], n).len()
        == j.scale.data@.len()) by {
        lemma_fold_accum_len(
            ma[j.scale.id],
            |p: int| offset_of(p as nat, j.scale.shape@, j.scale.strides@) as int,
            |p: int| crate::affine_normalize::dscale_at(
                j.x,
                j.mean,
                j.var,
                j.epsilon,
                gout,
                p as nat,
            ),
            false,
            n,
        );
    }
    assert(numel(j.bias.shape@) == n);
    assert(grad_bias_after(j.bias, gout, ma[j.bias.id], n).len() == j.bias.data@.len()) by {
        lemma_fold_accum_len(
            ma[j.bias.id],
            |p: int| offset_of(p as nat, j.bias.shape@, j.bias.strides@) as int,
            |p: int| gout[p],
            false,
            n,
        );
    }
}

/// Replaying a suffix of the record runs its first job last.
pub proof fn lemma_replay_unfold(jobs: Seq<BackwardJob>, k: int, m: Map<u64, Seq<u16>>)
    requires
        0 <= k < jobs.len(),
    ensures
        replay(jobs.skip(k), m) == job_apply(jobs[k], replay(jobs.skip(k + 1), m)),
    decreases jobs.len(),
{
    let n = jobs.len() as int;
    if k == n - 1 {
        assert(jobs.skip(k).len() == 1);
        assert(jobs.skip(k).last() == jobs[k]);
        assert(jobs.skip(k).drop_last() =~= Seq::<BackwardJob>::empty());
        assert(jobs.skip(k + 1) =~= Seq::<BackwardJob>::empty());
        assert(replay(Seq::<BackwardJob>::empty(), job_apply(jobs[k], m)) == job_apply(
            jobs[k],
            m,
        ));
        assert(replay(Seq::<BackwardJob>::empty(), m) == m);
    } else {
        let dl = jobs.drop_last();
        let m1 = job_apply(jobs[n - 1], m);
        assert(jobs.skip(k).last() == jobs[n - 1]);
        assert(jobs.skip(k).drop_last() =~= dl.skip(k));
        assert(replay(jobs.skip(k), m) == replay(dl.skip(k), m1));
        lemma_replay_unfold(dl, k, m1);
        assert(dl[k] == jobs[k]);
        assert(jobs.skip(k + 1).last() == jobs[n - 1]);
        assert(jobs.skip(k + 1).drop_last() =~= dl.skip(k + 1));
        assert(replay(jobs.skip(k + 1), m) == replay(dl.skip(k + 1), m1));
    }
}

/// Tape ordering: with computations recorded in order `a`, `b`, `c` (as
/// when `c` consumes `b`'s output and `b` consumes `a`'s), backward replay
/// runs `c`'s computation first, then `b`'s, then `a`'s — never any other
/// order.
pub proof fn lemma_tape_ordering(
    a: BackwardJob,
    b: BackwardJob,
    c: BackwardJob,
    m: Map<u64, Seq<u16>>,
)
    ensures
        replay(seq![a, b, c], m) == job_apply(a, job_apply(b, job_apply(c, m))),
{
    reveal_with_fuel(replay, 4);
    let s = seq![a, b, c];
    assert(s.last() == c);
    assert(s.drop_last() =~= seq![a, b]);
    assert(seq![a, b].last() == b);
    assert(seq![a, b].drop_last() =~= seq![a]);
    assert(seq![a].last() == a);
    assert(seq![a].drop_last() =~= Seq::<BackwardJob>::empty());
    let base = job_apply(a, job_apply(b, job_apply(c, m)));
    assert(replay(Seq::<BackwardJob>::empty(), base) == base);
}

/// Pass-through: replaying a tape that recorded nothing leaves the gradient
/// store exactly as it was — in particular, an empty store stays empty.
pub proof fn lemma_empty_replay(m: Map<u64, Seq<u16>>)
    ensures
        replay(Seq::<BackwardJob>::empty(), m) == m,
{
}

/// Accumulation: a job never resets a gradient slot. When its input's slot
/// already holds another path's contribution, the job's own per-position
/// contributions fold over those contents. So when one tensor identity
/// feeds two downstream paths, the final buffer holds both paths'
/// contributions combined, each added in replay order; which order only
/// moves the bit-level rounding of the sums.
pub proof fn lemma_accumulation(j: BackwardJob, m: Map<u64, Seq<u16>>)
    requires
        j.wf(),
        m.dom().contains(j.x.id),
    ensures
        job_apply(j, m)[j.x.id] == grad_x_after(
            j.x,
            j.var,
            j.scale,
            j.epsilon,
            job_allocs(j, m)[j.out.id],
            m[j.x.id],
            numel(j.x.shape@),
        ),
{
    assert(job_allocs(j, m)[j.x.id] == m[j.x.id]);
}

/// Two-path accumulation: when one tensor identity contributes gradient
/// through two recorded computations, the replay folds the later-recorded
/// job's contributions over the base buffer first, and the earlier job's
/// over the result — the slot is never reset between them, so the final
/// buffer is both paths' contributions combined. Which job runs first only
/// moves the bit-level rounding order of the sums.
pub proof fn lemma_two_path_accumulation(a: BackwardJob, b: BackwardJob, m: Map<u64, Seq<u16>>)
    requires
        a.wf(),
        b.wf(),
        a.x.id == b.x.id,
        m.dom().contains(b.x.id),
    ensures
        replay(seq![a, b], m)[a.x.id] == grad_x_after(
            a.x,
            a.var,
            a.scale,
            a.epsilon,
            job_allocs(a, job_apply(b, m))[a.out.id],
            grad_x_after(
                b.x,
                b.var,
                b.scale,
                b.epsilon,
                job_allocs(b, m)[b.out.id],
                m[b.x.id],
                numel(b.x.shape@),
            ),
            numel(a.x.shape@),
        ),
{
    reveal_with_fuel(replay, 3);
    let s = seq![a, b];
    assert(s.last() == b);
    assert(s.drop_last() =~= seq![a]);
    assert(seq![a].last() == a);
    assert(seq![a].drop_last() =~= Seq::<BackwardJob>::empty());
    let m1 = job_apply(b, m);
    assert(replay(s, m) == job_apply(a, m1));
    lemma_accumulation(b, m);
    assert(m1.dom().contains(a.x.id));
    assert(m1[a.x.id] == grad_x_after(
        b.x,
        b.var,
        b.scale,
        b.epsilon,
        job_allocs(b, m)[b.out.id],
        m[b.x.id],
        numel(b.x.shape@),
    ));
    lemma_accumulation(a, m1);
}

/// An ordered list of deferred backward computations, with the flag that
/// distinguishes eager recording ("owns recording") from pass-through.
pub struct Tape {
    pub jobs: Vec<BackwardJob>,
    pub owns: bool,
}

/// Allocate-if-absent every slot one job touches, fetch the input gradient
/// buffers for exclusive mutation and the output gradient for reading, run
/// the backend's backward kernel, and return the buffers to the store. A
/// failing backward call's error is returned unchanged, and the store then
/// holds that call's partial accumulation in the job's own slots only.
fn apply_job<D: AffineNormalizeKernel>(dev: &D, job: &BackwardJob, store: &mut Gradients) -> (r:
    Result<(), Error>)
    requires
        job.wf(),
        old(store).wf(),
        job_compat(*job, old(store)@),
    ensures
        final(store).wf(),
        dev.never_fails() ==> r is Ok,
        r is Ok ==> final(store)@ == job_apply(*job, old(store)@),
        r is Err ==> partial_after_abort(*job, old(store)@, final(store)@),
{
    let ghost m0 = store@;
    let gx_ref = job.x.ghost_ref();
    match store.alloc_for(&gx_ref) {
        Ok(_) => (),
        Err(e) => {
            return Err(e);
        },
    }
    match &job.mean {
        Some(m) => {
            let gm_ref = m.ghost_ref();
            match store.alloc_for(&gm_ref) {
                Ok(_) => (),
                Err(e) => {
                    return Err(e);
                },
            }
        },
        None => (),
    }
    let gv_ref = job.var.ghost_ref();
    match store.alloc_for(&gv_ref) {
        Ok(_) => (),
        Err(e) => {
            return Err(e);
        },
    }
    let gs_ref = job.scale.ghost_ref();
    match store.alloc_for(&gs_ref) {
        Ok(_) => (),
        Err(e) => {
            return Err(e);
        },
    }
    let gb_ref = job.bias.ghost_ref();
    match store.alloc_for(&gb_ref) {
        Ok(_) => (),
        Err(e) => {
            return Err(e);
        },
    }
    match store.alloc_for(&job.out) {
        Ok(_) => (),
        Err(e) => {
            return Err(e);
        },
    }
    proof {
        let j = *job;
        assert(store@ == job_allocs(j, m0));
        assert(j.len_of(j.x.id) == Some(j.x.data@.len()));
        assert(j.len_of(j.var.id) == Some(j.var.data@.len()));
        assert(j.len_of(j.scale.id) == Some(j.scale.data@.len()));
        assert(j.len_of(j.bias.id) == Some(j.bias.data@.len()));
        assert(j.len_of(j.out.id) == Some(j.out.len as nat));
        match j.mean {
            Some(me) => {
                assert(j.len_of(me.id) == Some(me.data@.len()));
            },
            None => {},
        }
        assert(store@[j.x.id].len() == j.x.data@.len());
        assert(store@[j.var.id].len() == j.var.data@.len());
        assert(store@[j.scale.id].len() == j.scale.data@.len());
        assert(store@[j.bias.id].len() == j.bias.data@.len());
        assert(store@[j.out.id].len() == j.out.len as nat);
    }
    let gout = store.take(job.out.id);
    let mut gx = store.take(job.x.id);
    let mut gm: Option<Vec<u16>> = match &job.mean {
        Some(m) => Some(store.take(m.id)),
        None => None,
    };
    let mut gv = store.take(job.var.id);
    let mut gs = store.take(job.scale.id);
    let mut gb = store.take(job.bias.id);
    let mean_ref: Option<&Tensor> = match &job.mean {
        Some(m) => Some(m),
        None => None,
    };
    let res = dev.backward(
        &job.x,
        &mut gx,
        mean_ref,
        &mut gm,
        &job.var,
        &mut gv,
        &job.scale,
        &mut gs,
        &job.bias,
        &mut gb,
        job.epsilon,
        &gout,
    );
    store.put(job.x.id, gx);
    match gm {
        Some(b) => {
            match &job.mean {
                Some(m) => {
                    store.put(m.id, b);
                },
                None => {},
            }
        },
        None => {},
    }
    store.put(job.var.id, gv);
    store.put(job.scale.id, gs);
    store.put(job.bias.id, gb);
    store.put(job.out.id, gout);
    proof {
        let j = *job;
        let ma = job_allocs(j, m0);
        assert forall|id: u64| !(#[trigger] j.touches(id)) implies ((store@.dom().contains(id)
            <==> ma.dom().contains(id)) && (ma.dom().contains(id) ==> store@[id] == ma[id])) by {
            assert(j.len_of(id) is None);
            assert(id != j.x.id && id != j.var.id && id != j.scale.id && id != j.bias.id && id
                != j.out.id);
            match j.mean {
                Some(me) => {
                    assert(id != me.id);
                },
                None => {},
            }
        }
        assert(store@[j.out.id] == ma[j.out.id]);
        assert(partial_after_abort(j, m0, store@));
    }
    match res {
        Ok(()) => {
            proof {
                assert(store@ =~~= job_apply(*job, m0));
            }
            Ok(())
        },
        Err(e) => Err(e),
    }
}

impl Tape {
    /// Every recorded job is well-formed.
    pub open spec fn wf(self) -> bool {
        forall|i: int| 0 <= i < self.jobs@.len() ==> (#[trigger] self.jobs@[i]).wf()
    }

    /// An empty tape; `owns` says whether recording is enabled.
    pub fn new(owns: bool) -> (r: Tape)
        ensures
            r.wf(),
            r.jobs@ == Seq::<BackwardJob>::empty(),
            r.owns == owns,
    {
        let r = Tape { jobs: Vec::new(), owns };
        proof {
            assert(r.jobs@ =~= Seq::<BackwardJob>::empty());
        }
        r
    }

    /// How many deferred computations are recorded.
    pub fn job_count(&self) -> (r: usize)
        ensures
            r == self.jobs@.len(),
    {
        self.jobs.len()
    }

    /// Whether this tape owns recording (eager autodiff) or is pass-through.
    pub fn is_recording(&self) -> (r: bool)
        ensures
            r == self.owns,
    {
        self.owns
    }

    /// Concatenates two tapes, preserving the relative order of each, and
    /// ORs the "owns recording" flags. Merging is associative and
    /// order-stable, so replay stays deterministic.
    pub fn merge(self, other: Tape) -> (r: Tape)
        ensures
            r.jobs@ == self.jobs@ + other.jobs@,
            r.owns == (self.owns || other.owns),
            self.wf() && other.wf() ==> r.wf(),
    {
        let Tape { jobs: mut a, owns: o1 } = self;
        let Tape { jobs: mut b, owns: o2 } = other;
        a.append(&mut b);
        let r = Tape { jobs: a, owns: o1 || o2 };
        proof {
            if self.wf() && other.wf() {
                assert forall|i: int| 0 <= i < r.jobs@.len() implies (#[trigger] r.jobs@[i]).wf()
                by {
                    if i < self.jobs@.len() {
                        assert(r.jobs@[i] == self.jobs@[i]);
                    } else {
                        assert(r.jobs@[i] == other.jobs@[i - self.jobs@.len()]);
                    }
                }
            }
        }
        r
    }

    /// Merging is associative: however tape fragments are grouped, the
    /// record — and so the replay — comes out the same.
    pub proof fn lemma_merge_associative(
        a: Seq<BackwardJob>,
        b: Seq<BackwardJob>,
        c: Seq<BackwardJob>,
    )
        ensures
            (a + b) + c == a + (b + c),
    {
        assert((a + b) + c =~= a + (b + c));
    }

    /// Appends one deferred backward computation.
    pub fn add_backward_op(&mut self, job: BackwardJob)
        ensures
            final(self).jobs@ == old(self).jobs@.push(job),
            final(self).owns == old(self).owns,
            old(self).wf() && job.wf() ==> final(self).wf(),
    {
        self.jobs.push(job);
        proof {
            if old(self).wf() && job.wf() {
                assert forall|i: int| 0 <= i < self.jobs@.len() implies (
                #[trigger] self.jobs@[i]).wf() by {
                    if i < old(self).jobs@.len() {
                        assert(self.jobs@[i] == old(self).jobs@[i]);
                    }
                }
            }
        }
    }

    /// Replays the recorded computations in strict reverse insertion order,
    /// consuming the tape. The first failing backward call's error aborts
    /// the remaining replay and is returned unchanged; the store then holds
    /// the full replay of the jobs recorded after the failing one, plus that
    /// job's own partial accumulation — possibly-partial gradients that
    /// callers must not trust for a parameter update.
    #[verifier::loop_isolation(false)]
    pub fn execute<D: AffineNormalizeKernel>(self, dev: &D, store: &mut Gradients) -> (r: Result<
        (),
        Error,
    >)
        requires
            self.wf(),
            old(store).wf(),
            jobs_coherent(self.jobs@),
            forall|i: int|
                0 <= i < self.jobs@.len() ==> job_compat(#[trigger] self.jobs@[i], old(store)@),
        ensures
            final(store).wf(),
            dev.never_fails() ==> r is Ok,
            r is Ok ==> final(store)@ == replay(self.jobs@, old(store)@),
            r is Err ==> exists|k: int|
                0 <= k < self.jobs@.len() && partial_after_abort(
                    #[trigger] self.jobs@[k],
                    replay(self.jobs@.skip(k + 1), old(store)@),
                    final(store)@,
                ),
    {
        let ghost all = self.jobs@;
        let ghost m0 = store@;
        let mut jobs = self.jobs;
        proof {
            assert(all.take(all.len() as int) =~= all);
            assert(all.skip(all.len() as int) =~= Seq::<BackwardJob>::empty());
        }
        while jobs.len() > 0
            invariant
                jobs@.len() <= all.len(),
                jobs@ == all.take(jobs@.len() as int),
                store.wf(),
                store@ == replay(all.skip(jobs@.len() as int), m0),
                forall|i: int| 0 <= i < jobs@.len() ==> job_compat(#[trigger] all[i], store@),
            decreases jobs@.len(),
        {
            let ghost oldjobs = jobs@;
            let ghost k = oldjobs.len() as int - 1;
            let ghost prev = store@;
            let job = match jobs.pop() {
                Some(j) => j,
                None => unreached(),
            };
            proof {
                assert(oldjobs == all.take(oldjobs.len() as int));
                assert(job == oldjobs[k]);
                assert(all.take(oldjobs.len() as int)[k] == all[k]);
                assert(job == all[k]);
                assert(jobs@ == oldjobs.subrange(0, k));
                assert(jobs@ =~= all.take(k));
                assert(job.wf());
            }
            let res = apply_job(dev, &job, store);
            match res {
                Ok(()) => {
                    proof {
                        lemma_replay_unfold(all, k, m0);
                        lemma_job_apply_shape(job, prev);
                        assert forall|i: int| 0 <= i < k implies job_compat(
                            #[trigger] all[i],
                            store@,
                        ) by {
                            assert forall|id: u64|
                                (#[trigger] all[i].len_of(id)) is Some implies (
                            store@.dom().contains(id) ==> store@[id].len() == all[i].len_of(
                                id,
                            )->Some_0) by {
                                if store@.dom().contains(id) {
                                    if job.touches(id) {
                                        assert(all[k].len_of(id) is Some);
                                        assert(all[i].len_of(id) == all[k].len_of(id));
                                    } else {
                                        assert(job_compat(all[i], prev));
                                    }
                                }
                            }
                        }
                    }
                },
                Err(e) => {
                    proof {
                        assert(partial_after_abort(all[k], replay(all.skip(k + 1), m0), store@));
                    }
                    return Err(e);
                },
            }
        }
        proof {
            assert(all.take(0) =~= Seq::<BackwardJob>::empty());
            assert(all.skip(0) =~= all);
        }
        Ok(())
    }
}

/// A tensor together with the tape fragment it carries.
pub struct Traced {
    pub tensor: Tensor,
    pub tape: Tape,
}

impl Tensor {
    /// Attach a tape fragment.
    pub fn put_tape(self, tape: Tape) -> (r: Traced)
        ensures
            r.tensor == self,
            r.tape == tape,
    {
        Traced { tensor: self, tape }
    }

    /// Start recording: attach a fresh tape that owns recording.
    pub fn traced(self) -> (r: Traced)
        ensures
            r.tensor == self,
            r.tape.owns == true,
            r.tape.jobs@ == Seq::<BackwardJob>::empty(),
            self.wf() ==> r.wf(),
    {
        let tape = Tape::new(true);
        Traced { tensor: self, tape }
    }
}

/// A buffer of `n` ones, the seed gradient of a backward pass.
pub fn ones_buf(n: usize) -> (r: Vec<u16>)
    ensures
        r@ == ones_seq(n as nat),
{
    let mut v: Vec<u16> = Vec::new();
    let mut i: usize = 0;
    while i < n
        invariant
            i <= n,
            v@.len() == i,
            forall|j: int| 0 <= j < i ==> v@[j] == crate::scalar::ONE_BITS,
        decreases n - i,
    {
        v.push(crate::scalar::ONE_BITS);
        i = i + 1;
    }
    proof {
        assert(v@ =~= ones_seq(n as nat));
    }
    v
}

/// The all-ones buffer contents of length `n`.
pub open spec fn ones_seq(n: nat) -> Seq<u16> {
    Seq::new(n, |i: int| crate::scalar::ONE_BITS)
}

/// The store a backward pass starts from: the output gradient of the loss
/// tensor itself, seeded with ones.
pub open spec fn seed_store(t: Tensor) -> Map<u64, Seq<u16>> {
    Map::<u64, Seq<u16>>::empty().insert(t.id, ones_seq(t.data@.len()))
}

impl Traced {
    pub open spec fn wf(self) -> bool {
        self.tensor.wf() && self.tape.wf()
    }

    /// Detach the tape fragment from the tensor.
    pub fn split_tape(self) -> (r: (Tensor, Tape))
        ensures
            r.0 == self.tensor,
            r.1 == self.tape,
    {
        let Traced { tensor, tape } = self;
        (tensor, tape)
    }

    /// Run backward from this tensor: seed its own output gradient with
    /// ones, then replay the whole tape in strict reverse order, returning
    /// the populated gradient store (or the first backward error).
    pub fn backward<D: AffineNormalizeKernel>(self, dev: &D) -> (r: Result<Gradients, Error>)
        requires
            self.wf(),
            jobs_coherent(self.tape.jobs@),
            forall|i: int|
                0 <= i < self.tape.jobs@.len() ==> job_compat(
                    #[trigger] self.tape.jobs@[i],
                    seed_store(self.tensor),
                ),
        ensures
            dev.never_fails() ==> r is Ok,
            r matches Ok(g) ==> g.wf() && g@ == replay(self.tape.jobs@, seed_store(self.tensor)),
    {
        let (t, tape) = self.split_tape();
        let mut store = Gradients::new();
        let n = t.data.len();
        let seed = ones_buf(n);
        store.put(t.id, seed);
        proof {
            assert(store@ == seed_store(t));
        }
        match tape.execute(dev, &mut store) {
            Ok(()) => Ok(store),
            Err(e) => Err(e),
        }
    }
}

} // verus!
