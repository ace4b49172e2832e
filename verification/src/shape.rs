//! Logical shapes, strides, and row-major strided iteration.
//!
//! A tensor's logical positions are `0 .. numel(shape)`, enumerated in
//! row-major order. Each tensor maps a logical position to an offset into
//! its physical buffer through its own strides; a stride of zero broadcasts
//! one stored value across a whole dimension.

use vstd::prelude::*;
use vstd::arithmetic::div_mod::lemma_fundamental_div_mod;
use vstd::arithmetic::div_mod::lemma_multiply_divide_lt;

verus! {

/// The number of logical elements of a shape: the product of its dimensions.
pub open spec fn numel(shape: Seq<usize>) -> nat
    decreases shape.len(),
{
    if shape.len() == 0 {
        1
    } else {
        numel(shape.drop_last()) * (shape.last() as nat)
    }
}

/// Every dimension is at least one.
pub open spec fn dims_pos(shape: Seq<usize>) -> bool {
    forall|d: int| 0 <= d < shape.len() ==> #[trigger] shape[d] >= 1
}

/// The physical offset reached by the logical position `pos` when a buffer
/// of the given shape is walked in row-major order with the given strides.
pub open spec fn offset_of(pos: nat, shape: Seq<usize>, strides: Seq<usize>) -> nat
    decreases shape.len(),
{
    if shape.len() == 0 {
        0
    } else {
        (pos % (shape.last() as nat)) * (strides.last() as nat) + offset_of(
            pos / (shape.last() as nat),
            shape.drop_last(),
            strides.drop_last(),
        )
    }
}

/// The row-major (contiguous) strides of a shape: each dimension's stride is
/// the element count of the dimensions after it.
pub open spec fn contig_of(shape: Seq<usize>) -> Seq<usize> {
    Seq::new(shape.len(), |d: int| numel(shape.skip(d + 1)) as usize)
}

pub proof fn lemma_numel_pos(shape: Seq<usize>)
    requires
        dims_pos(shape),
    ensures
        numel(shape) >= 1,
    decreases shape.len(),
{
    if shape.len() > 0 {
        assert(dims_pos(shape.drop_last()));
        lemma_numel_pos(shape.drop_last());
        assert(numel(shape.drop_last()) * shape.last() >= 1) by (nonlinear_arith)
            requires
                numel(shape.drop_last()) >= 1,
                shape.last() >= 1,
        ;
    }
}

/// A shape's element count splits multiplicatively at any cut point.
pub proof fn lemma_numel_split(shape: Seq<usize>, k: int)
    requires
        0 <= k <= shape.len(),
    ensures
        numel(shape) == numel(shape.take(k)) * numel(shape.skip(k)),
    decreases shape.len(),
{
    if k == shape.len() {
        assert(shape.take(k) =~= shape);
        assert(shape.skip(k) =~= Seq::<usize>::empty());
        assert(numel(shape.skip(k)) == 1);
        assert(numel(shape.take(k)) * 1 == numel(shape.take(k))) by (nonlinear_arith);
    } else {
        let dl = shape.drop_last();
        let ll = shape.last() as nat;
        lemma_numel_split(dl, k);
        assert(dl.take(k) =~= shape.take(k));
        assert(shape.skip(k).drop_last() =~= dl.skip(k));
        assert(shape.skip(k).len() > 0);
        assert(shape.skip(k).last() == shape.last());
        assert(numel(shape.skip(k)) == numel(dl.skip(k)) * ll);
        assert(numel(shape) == numel(shape.take(k)) * numel(shape.skip(k))) by (nonlinear_arith)
            requires
                numel(shape) == numel(dl) * ll,
                numel(dl) == numel(shape.take(k)) * numel(dl.skip(k)),
                numel(shape.skip(k)) == numel(dl.skip(k)) * ll,
        ;
    }
}

pub proof fn lemma_numel_take_le(shape: Seq<usize>, k: int)
    requires
        dims_pos(shape),
        0 <= k <= shape.len(),
    ensures
        numel(shape.take(k)) <= numel(shape),
{
    lemma_numel_split(shape, k);
    assert(dims_pos(shape.skip(k)));
    lemma_numel_pos(shape.skip(k));
    assert(numel(shape.take(k)) <= numel(shape.take(k)) * numel(shape.skip(k)))
        by (nonlinear_arith)
        requires
            numel(shape.skip(k)) >= 1,
    ;
}

pub proof fn lemma_numel_skip_le(shape: Seq<usize>, k: int)
    requires
        dims_pos(shape),
        0 <= k <= shape.len(),
    ensures
        numel(shape.skip(k)) <= numel(shape),
{
    lemma_numel_split(shape, k);
    assert(dims_pos(shape.take(k)));
    lemma_numel_pos(shape.take(k));
    assert(numel(shape.skip(k)) <= numel(shape.take(k)) * numel(shape.skip(k)))
        by (nonlinear_arith)
        requires
            numel(shape.take(k)) >= 1,
    ;
}

/// With all strides zero every logical position lands on offset zero.
pub proof fn lemma_offset_zero_strides(pos: nat, shape: Seq<usize>, strides: Seq<usize>)
    requires
        dims_pos(shape),
        strides.len() == shape.len(),
        forall|d: int| 0 <= d < strides.len() ==> #[trigger] strides[d] == 0,
    ensures
        offset_of(pos, shape, strides) == 0,
    decreases shape.len(),
{
    if shape.len() > 0 {
        assert(strides[strides.len() - 1] == 0);
        assert(strides.last() == 0);
        assert((pos % (shape.last() as nat)) * (strides.last() as nat) == 0) by (nonlinear_arith)
            requires
                strides.last() == 0,
        ;
        assert(dims_pos(shape.drop_last()));
        assert forall|d: int| 0 <= d < strides.drop_last().len() implies #[trigger] strides.drop_last()[d]
            == 0 by {
            assert(strides.drop_last()[d] == strides[d]);
        }
        lemma_offset_zero_strides(
            pos / (shape.last() as nat),
            shape.drop_last(),
            strides.drop_last(),
        );
        assert(offset_of(pos, shape, strides) == (pos % (shape.last() as nat)) * (
        strides.last() as nat) + offset_of(
            pos / (shape.last() as nat),
            shape.drop_last(),
            strides.drop_last(),
        )) by {
            reveal_with_fuel(offset_of, 2);
        }
    }
}

/// Walking a shape with strides that are a common multiple `m` of its
/// row-major strides sends the logical position `pos` to offset `pos * m`.
pub proof fn lemma_offset_row_major(pos: nat, shape: Seq<usize>, strides: Seq<usize>, m: nat)
    requires
        dims_pos(shape),
        strides.len() == shape.len(),
        pos < numel(shape),
        forall|d: int| 0 <= d < shape.len() ==> (#[trigger] strides[d]) as nat == m * numel(
            shape.skip(d + 1),
        ),
    ensures
        offset_of(pos, shape, strides) == pos * m,
    decreases shape.len(),
{
    if shape.len() == 0 {
        assert(pos == 0);
        assert(0 * m == 0) by (nonlinear_arith);
    } else {
        let len = shape.len() as int;
        let ll = shape.last() as nat;
        let q = pos / ll;
        let r = pos % ll;
        let sh = shape.drop_last();
        let st = strides.drop_last();
        assert(shape.skip(len) =~= Seq::<usize>::empty());
        assert((strides.last() as nat) == m * 1);
        assert(numel(shape) == numel(sh) * ll);
        assert(q < numel(sh)) by {
            assert((ll as int) * (numel(sh) as int) == (numel(sh) as int) * (ll as int))
                by (nonlinear_arith);
            lemma_multiply_divide_lt(pos as int, ll as int, numel(sh) as int);
        }
        assert forall|d: int| 0 <= d < sh.len() implies (#[trigger] st[d]) as nat == (m * ll)
            * numel(sh.skip(d + 1)) by {
            assert(shape.skip(d + 1).drop_last() =~= sh.skip(d + 1));
            assert(shape.skip(d + 1).last() == shape.last());
            assert(numel(shape.skip(d + 1)) == numel(sh.skip(d + 1)) * ll);
            assert(st[d] == strides[d]);
            assert(m * (numel(sh.skip(d + 1)) * ll) == (m * ll) * numel(sh.skip(d + 1)))
                by (nonlinear_arith);
        }
        lemma_offset_row_major(q, sh, st, m * ll);
        lemma_fundamental_div_mod(pos as int, ll as int);
        assert(r * m + q * (m * ll) == pos * m) by (nonlinear_arith)
            requires
                pos == ll * q + r,
        ;
    }
}

/// Row-major strides walk the buffer linearly: position `pos` lands on
/// offset `pos`.
pub proof fn lemma_offset_contig(pos: nat, shape: Seq<usize>)
    requires
        dims_pos(shape),
        numel(shape) <= usize::MAX,
        pos < numel(shape),
    ensures
        offset_of(pos, shape, contig_of(shape)) == pos,
{
    assert forall|d: int| 0 <= d < shape.len() implies (#[trigger] contig_of(shape)[d]) as nat == 1
        * numel(shape.skip(d + 1)) by {
        lemma_numel_skip_le(shape, d + 1);
        assert(numel(shape.skip(d + 1)) <= usize::MAX);
        assert(1 * numel(shape.skip(d + 1)) == numel(shape.skip(d + 1))) by (nonlinear_arith);
    }
    lemma_offset_row_major(pos, shape, contig_of(shape), 1);
    assert(pos * 1 == pos) by (nonlinear_arith);
}

/// The element count of a shape, computed.
pub fn numel_of(shape: &Vec<usize>) -> (r: usize)
    requires
        dims_pos(shape@),
        numel(shape@) <= usize::MAX,
    ensures
        r == numel(shape@),
{
    let rank = shape.len();
    let mut p: usize = 1;
    let mut d: usize = 0;
    proof {
        assert(shape@.take(0) =~= Seq::<usize>::empty());
    }
    while d < rank
        invariant
            d <= rank,
            rank == shape@.len(),
            dims_pos(shape@),
            numel(shape@) <= usize::MAX,
            p == numel(shape@.take(d as int)),
        decreases rank - d,
    {
        proof {
            assert(shape@.take(d + 1).drop_last() =~= shape@.take(d as int));
            assert(shape@.take(d + 1).last() == shape@[d as int]);
            lemma_numel_take_le(shape@, d + 1);
        }
        p = p * shape[d];
        d = d + 1;
    }
    proof {
        assert(shape@.take(rank as int) =~= shape@);
    }
    p
}

/// The row-major strides of a shape, computed.
pub fn contig_strides(shape: &Vec<usize>) -> (r: Vec<usize>)
    requires
        dims_pos(shape@),
        numel(shape@) <= usize::MAX,
    ensures
        r@ == contig_of(shape@),
{
    let rank = shape.len();
    let mut v: Vec<usize> = Vec::new();
    let mut i: usize = 0;
    while i < rank
        invariant
            i <= rank,
            v@.len() == i,
        decreases rank - i,
    {
        v.push(0);
        i = i + 1;
    }
    let mut acc: usize = 1;
    let mut d: usize = rank;
    proof {
        assert(shape@.skip(rank as int) =~= Seq::<usize>::empty());
    }
    while d > 0
        invariant
            d <= rank,
            rank == shape@.len(),
            v@.len() == rank,
            dims_pos(shape@),
            numel(shape@) <= usize::MAX,
            acc == numel(shape@.skip(d as int)),
            forall|j: int| d <= j < rank ==> (#[trigger] v@[j]) as nat == numel(
                shape@.skip(j + 1),
            ),
        decreases d,
    {
        d = d - 1;
        proof {
            lemma_numel_skip_le(shape@, d as int);
            lemma_numel_split(shape@.skip(d as int), 1);
            assert(shape@.skip(d as int).skip(1) =~= shape@.skip(d + 1));
            let head = shape@.skip(d as int).take(1);
            assert(head.len() == 1);
            assert(head.drop_last() =~= Seq::<usize>::empty());
            assert(head.last() == shape@[d as int]);
            assert(numel(head) == numel(Seq::<usize>::empty()) * (head.last() as nat));
            assert(1 * (head.last() as nat) == head.last() as nat) by (nonlinear_arith);
            assert(numel(head) == shape@[d as int] as nat);
            assert(numel(shape@.skip(d as int)) == (shape@[d as int] as nat) * numel(
                shape@.skip(d + 1),
            )) by (nonlinear_arith)
                requires
                    numel(shape@.skip(d as int)) == numel(head) * numel(shape@.skip(d + 1)),
                    numel(head) == shape@[d as int] as nat,
            ;
        }
        v[d] = acc;
        proof {
            assert((numel(shape@.skip(d + 1)) as int) * (shape@[d as int] as int) == (
            shape@[d as int] as nat) * numel(shape@.skip(d + 1))) by (nonlinear_arith);
        }
        acc = acc * shape[d];
    }
    proof {
        assert(v@ =~= contig_of(shape@));
    }
    v
}

/// The physical offset of logical position `pos` under the given shape and
/// strides, computed by peeling coordinates off the last dimension first.
pub fn offset_at(shape: &Vec<usize>, strides: &Vec<usize>, pos: usize) -> (r: usize)
    requires
        strides@.len() == shape@.len(),
        dims_pos(shape@),
        pos < numel(shape@),
        offset_of(pos as nat, shape@, strides@) <= usize::MAX,
    ensures
        r == offset_of(pos as nat, shape@, strides@),
{
    let rank = shape.len();
    let mut off: usize = 0;
    let mut p: usize = pos;
    let mut d: usize = rank;
    proof {
        assert(shape@.take(rank as int) =~= shape@);
        assert(strides@.take(rank as int) =~= strides@);
    }
    while d > 0
        invariant
            d <= rank,
            rank == shape@.len(),
            rank == strides@.len(),
            dims_pos(shape@),
            off + offset_of(p as nat, shape@.take(d as int), strides@.take(d as int)) == offset_of(
                pos as nat,
                shape@,
                strides@,
            ),
            offset_of(pos as nat, shape@, strides@) <= usize::MAX,
        decreases d,
    {
        d = d - 1;
        proof {
            assert(shape@.take(d + 1).drop_last() =~= shape@.take(d as int));
            assert(strides@.take(d + 1).drop_last() =~= strides@.take(d as int));
            assert(shape@.take(d + 1).last() == shape@[d as int]);
            assert(strides@.take(d + 1).last() == strides@[d as int]);
        }
        let c = p % shape[d];
        proof {
            assert(offset_of(p as nat, shape@.take(d + 1), strides@.take(d + 1)) == (c as nat) * (
            strides@[d as int] as nat) + offset_of(
                p as nat / (shape@[d as int] as nat),
                shape@.take(d as int),
                strides@.take(d as int),
            ));
        }
        off = off + c * strides[d];
        p = p / shape[d];
    }
    proof {
        assert(shape@.take(0) =~= Seq::<usize>::empty());
    }
    off
}

/// Whether two dimension vectors are equal.
pub fn same_dims(a: &Vec<usize>, b: &Vec<usize>) -> (r: bool)
    ensures
        r <==> a@ == b@,
{
    if a.len() != b.len() {
        proof {
            assert(a@ != b@);
        }
        return false;
    }
    let n = a.len();
    let mut i: usize = 0;
    while i < n
        invariant
            i <= n,
            n == a@.len(),
            n == b@.len(),
            forall|j: int| 0 <= j < i ==> a@[j] == b@[j],
        decreases n - i,
    {
        if a[i] != b[i] {
            return false;
        }
        i = i + 1;
    }
    proof {
        assert(a@ =~= b@);
    }
    true
}

/// A strided cursor over one tensor's buffer: yields, for each logical
/// position in row-major order, the physical offset that position reaches
/// under the cursor's shape and strides. Restartable by constructing anew;
/// finite; one pass.
pub struct NdIndex {
    pub shape: Vec<usize>,
    pub strides: Vec<usize>,
    pub pos: usize,
    pub total: usize,
}

impl NdIndex {
    pub open spec fn wf(self) -> bool {
        &&& self.strides@.len() == self.shape@.len()
        &&& dims_pos(self.shape@)
        &&& self.total == numel(self.shape@)
        &&& self.pos <= self.total
    }

    pub open spec fn shape_view(self) -> Seq<usize> {
        self.shape@
    }

    pub open spec fn strides_view(self) -> Seq<usize> {
        self.strides@
    }

    pub open spec fn at(self) -> nat {
        self.pos as nat
    }

    pub fn new(shape: &Vec<usize>, strides: &Vec<usize>) -> (r: NdIndex)
        requires
            strides@.len() == shape@.len(),
            dims_pos(shape@),
            numel(shape@) <= usize::MAX,
        ensures
            r.wf(),
            r.shape_view() == shape@,
            r.strides_view() == strides@,
            r.at() == 0,
    {
        let total = numel_of(shape);
        NdIndex { shape: shape.clone(), strides: strides.clone(), pos: 0, total }
    }

    /// The next physical offset, or `None` once every logical position has
    /// been yielded.
    pub fn next(&mut self) -> (r: Option<usize>)
        requires
            old(self).wf(),
            old(self).at() < numel(old(self).shape_view()) ==> offset_of(
                old(self).at(),
                old(self).shape_view(),
                old(self).strides_view(),
            ) <= usize::MAX,
        ensures
            final(self).wf(),
            final(self).shape_view() == old(self).shape_view(),
            final(self).strides_view() == old(self).strides_view(),
            old(self).at() < numel(old(self).shape_view()) ==> r == Some(
                offset_of(old(self).at(), old(self).shape_view(), old(self).strides_view())
                    as usize,
            ) && final(self).at() == old(self).at() + 1,
            old(self).at() >= numel(old(self).shape_view()) ==> r is None && final(self).at()
                == old(self).at(),
    {
        if self.pos < self.total {
            let off = offset_at(&self.shape, &self.strides, self.pos);
            self.pos = self.pos + 1;
            Some(off)
        } else {
            None
        }
    }
}

} // verus!
