//! Shaped data moved by the drivers. Element values are opaque 32-bit
//! patterns: the drivers never compute on elements, they only slice them
//! along an axis, pad short chunks with zeros, write chunks into a larger
//! buffer, and trim. A well-formed tensor stores exactly one element per
//! point of its shape, row-major.

use vstd::prelude::*;

verus! {

/// Product of a sequence of dimensions.
pub open spec fn prod(s: Seq<usize>) -> int
    decreases s.len(),
{
    if s.len() == 0 {
        1
    } else {
        prod(s.drop_last()) * s.last()
    }
}

pub proof fn lemma_prod_nonneg(s: Seq<usize>)
    ensures
        prod(s) >= 0,
    decreases s.len(),
{
    if s.len() > 0 {
        lemma_prod_nonneg(s.drop_last());
        assert(prod(s.drop_last()) * s.last() >= 0) by (nonlinear_arith)
            requires
                prod(s.drop_last()) >= 0,
                s.last() >= 0,
        ;
    }
}

/// Extending a dimension range multiplies its product by the new entry.
pub proof fn lemma_prod_snoc(s: Seq<usize>, i: int, j: int)
    requires
        0 <= i <= j < s.len(),
    ensures
        prod(s.subrange(i, j + 1)) == prod(s.subrange(i, j)) * s[j],
{
    let p = s.subrange(i, j + 1);
    assert(p.drop_last() =~= s.subrange(i, j));
    assert(p.last() == s[j]);
}

pub proof fn lemma_prod_concat(a: Seq<usize>, b: Seq<usize>)
    ensures
        prod(a + b) == prod(a) * prod(b),
    decreases b.len(),
{
    if b.len() == 0 {
        assert(a + b =~= a);
    } else {
        lemma_prod_concat(a, b.drop_last());
        assert((a + b).drop_last() =~= a + b.drop_last());
        assert((a + b).last() == b.last());
        assert(prod(a) * prod(b.drop_last()) * b.last() == prod(a) * (prod(b.drop_last())
            * b.last())) by (nonlinear_arith);
    }
}

/// The whole product splits at any axis into outer part, axis length, and
/// inner part.
pub proof fn lemma_prod_split3(s: Seq<usize>, a: int)
    requires
        0 <= a < s.len(),
    ensures
        prod(s) == prod(s.subrange(0, a)) * s[a] * prod(s.subrange(a + 1, s.len() as int)),
{
    let p1 = s.subrange(0, a);
    let p2 = s.subrange(a, a + 1);
    let p3 = s.subrange(a + 1, s.len() as int);
    assert(s =~= (p1 + p2) + p3);
    lemma_prod_concat(p1 + p2, p3);
    lemma_prod_concat(p1, p2);
    assert(p2.drop_last() =~= Seq::<usize>::empty());
    assert(prod(Seq::<usize>::empty()) == 1);
    assert(p2.last() == s[a]);
    assert(prod(p2) == s[a]);
}

/// Every contiguous range of the dimensions has a product the machine can
/// hold. This is what lets flat indices be computed without overflow.
pub open spec fn ranges_fit(s: Seq<usize>) -> bool {
    forall|i: int, j: int| 0 <= i <= j <= s.len() ==> prod(#[trigger] s.subrange(i, j)) <= usize::MAX
}

/// Row-major flat position of outer index `o`, axis index `j`, inner index
/// `k`, for axis length `bj` and inner size `bk`.
pub open spec fn flat_index(o: int, j: int, k: int, bj: int, bk: int) -> int {
    (o * bj + j) * bk + k
}

pub proof fn lemma_flat_index_bound(o: int, j: int, k: int, bo: int, bj: int, bk: int)
    requires
        0 <= o < bo,
        0 <= j < bj,
        0 <= k < bk,
    ensures
        0 <= flat_index(o, j, k, bj, bk),
        flat_index(o, j, k, bj, bk) < bo * bj * bk,
{
    assert(0 <= o * bj + j && o * bj + j < bo * bj) by (nonlinear_arith)
        requires
            0 <= o < bo,
            0 <= j < bj,
    ;
    assert(0 <= (o * bj + j) * bk + k && (o * bj + j) * bk + k < (bo * bj) * bk)
        by (nonlinear_arith)
        requires
            0 <= o * bj + j,
            o * bj + j < bo * bj,
            0 <= k < bk,
    ;
}

pub proof fn lemma_flat_index_injective(
    o1: int, j1: int, k1: int,
    o2: int, j2: int, k2: int,
    bj: int, bk: int,
)
    requires
        0 <= o1,
        0 <= o2,
        0 <= j1 < bj,
        0 <= j2 < bj,
        0 <= k1 < bk,
        0 <= k2 < bk,
        flat_index(o1, j1, k1, bj, bk) == flat_index(o2, j2, k2, bj, bk),
    ensures
        o1 == o2,
        j1 == j2,
        k1 == k2,
{
    assert(o1 * bj + j1 == o2 * bj + j2 && k1 == k2) by (nonlinear_arith)
        requires
            (o1 * bj + j1) * bk + k1 == (o2 * bj + j2) * bk + k2,
            0 <= k1 < bk,
            0 <= k2 < bk,
    ;
    assert(o1 == o2 && j1 == j2) by (nonlinear_arith)
        requires
            o1 * bj + j1 == o2 * bj + j2,
            0 <= j1 < bj,
            0 <= j2 < bj,
            0 <= o1,
            0 <= o2,
    ;
}

/// Lexicographic order of (outer, axis, inner) positions matches the order
/// of flat positions.
pub proof fn lemma_flat_lex_lt(
    o2: int, j2: int, k2: int,
    o: int, j: int, k: int,
    bj: int, bk: int,
)
    requires
        0 <= o2,
        0 <= j2 < bj,
        0 <= k2 < bk,
        0 <= o,
        0 <= j,
        0 <= k,
        o2 < o || (o2 == o && (j2 < j || (j2 == j && k2 < k))),
    ensures
        flat_index(o2, j2, k2, bj, bk) < flat_index(o, j, k, bj, bk),
{
    if o2 < o || (o2 == o && j2 < j) {
        assert(o2 * bj + j2 < o * bj + j) by (nonlinear_arith)
            requires
                0 <= o2,
                0 <= j2 < bj,
                0 <= j,
                o2 < o || (o2 == o && j2 < j),
        ;
        assert((o2 * bj + j2) * bk + k2 < (o * bj + j) * bk + k) by (nonlinear_arith)
            requires
                0 <= o2 * bj + j2,
                o2 * bj + j2 < o * bj + j,
                0 <= k2 < bk,
                0 <= k,
        ;
    }
}

/// A shaped array of opaque 32-bit elements, row-major.
#[derive(Debug, Clone, PartialEq, Eq)]
pub struct Tensor {
    pub dims: Vec<usize>,
    pub data: Vec<u32>,
}

impl Tensor {
    /// One element per point of the shape, and all range products fit the
    /// machine, so flat positions are computable.
    pub open spec fn wf(self) -> bool {
        &&& self.data@.len() == prod(self.dims@)
        &&& ranges_fit(self.dims@)
    }

    pub open spec fn rank(self) -> int {
        self.dims@.len() as int
    }

    pub open spec fn dim(self, i: int) -> int {
        self.dims@[i] as int
    }

    /// Product of the dimensions before `axis`.
    pub open spec fn outer(self, axis: int) -> int {
        prod(self.dims@.subrange(0, axis))
    }

    /// Product of the dimensions after `axis`.
    pub open spec fn inner(self, axis: int) -> int {
        prod(self.dims@.subrange(axis + 1, self.dims@.len() as int))
    }

    /// The element at outer index `o`, position `j` along `axis`, inner
    /// index `k`.
    pub open spec fn at(self, axis: int, o: int, j: int, k: int) -> u32 {
        self.data@[flat_index(o, j, k, self.dim(axis), self.inner(axis))]
    }
}

/// The element chunking reads at axis position `start + j`: the source
/// element while within bounds, and zero padding beyond.
pub open spec fn chunk_elem(t: Tensor, axis: int, start: int, o: int, j: int, k: int) -> u32 {
    if start + j < t.dim(axis) {
        t.at(axis, o, start + j, k)
    } else {
        0u32
    }
}

/// Does every range product from `i` on fit the machine?
fn check_fits_from(dims: &Vec<usize>, i: usize) -> (r: bool)
    requires
        i <= dims@.len(),
    ensures
        r == forall|j: int|
            i <= j <= dims@.len() ==> prod(dims@.subrange(i as int, j)) <= usize::MAX,
{
    let n = dims.len();
    let mut acc: usize = 1;
    let mut j: usize = i;
    while j < n
        invariant
            i <= j <= n,
            n == dims@.len(),
            acc == prod(dims@.subrange(i as int, j as int)),
            forall|t: int| i <= t <= j ==> prod(dims@.subrange(i as int, t)) <= usize::MAX,
        decreases n - j,
    {
        proof {
            lemma_prod_snoc(dims@, i as int, j as int);
        }
        match acc.checked_mul(dims[j]) {
            Some(v) => {
                acc = v;
            },
            None => {
                proof {
                    assert(prod(dims@.subrange(i as int, j + 1)) > usize::MAX);
                }
                return false;
            },
        }
        j = j + 1;
    }
    proof {
        assert(dims@.subrange(i as int, n as int) =~= dims@.subrange(i as int, dims@.len() as int));
    }
    true
}

/// Does every contiguous range product of `dims` fit the machine?
pub fn check_ranges_fit(dims: &Vec<usize>) -> (r: bool)
    ensures
        r == ranges_fit(dims@),
{
    let n = dims.len();
    let mut i: usize = 0;
    while i < n
        invariant
            i <= n,
            n == dims@.len(),
            forall|a: int, b: int|
                0 <= a < i && a <= b <= n ==> prod(#[trigger] dims@.subrange(a, b)) <= usize::MAX,
        decreases n - i,
    {
        if !check_fits_from(dims, i) {
            return false;
        }
        i = i + 1;
    }
    proof {
        assert forall|a: int, b: int| 0 <= a <= b <= dims@.len() implies prod(
            #[trigger] dims@.subrange(a, b),
        ) <= usize::MAX by {
            if a == dims@.len() {
                assert(dims@.subrange(a, b) =~= Seq::<usize>::empty());
                assert(prod(Seq::<usize>::empty()) == 1);
            }
        }
    }
    true
}

/// Product of the dimension range `[lo, hi)`, computable because all range
/// products fit.
pub fn prod_range(dims: &Vec<usize>, lo: usize, hi: usize) -> (r: usize)
    requires
        lo <= hi <= dims@.len(),
        ranges_fit(dims@),
    ensures
        r == prod(dims@.subrange(lo as int, hi as int)),
{
    let mut acc: usize = 1;
    let mut j: usize = lo;
    while j < hi
        invariant
            lo <= j <= hi <= dims@.len(),
            ranges_fit(dims@),
            acc == prod(dims@.subrange(lo as int, j as int)),
        decreases hi - j,
    {
        proof {
            lemma_prod_snoc(dims@, lo as int, j as int);
            lemma_prod_nonneg(dims@.subrange(lo as int, j as int));
            assert(prod(dims@.subrange(lo as int, j + 1)) <= usize::MAX);
        }
        acc = acc * dims[j];
        j = j + 1;
    }
    acc
}

impl Tensor {
    /// A tensor of the given shape with every element set to `value`;
    /// `None` exactly when some range product of the shape overflows the
    /// machine.
    pub fn filled(dims: Vec<usize>, value: u32) -> (r: Option<Tensor>)
        ensures
            match r {
                Some(t) => {
                    &&& t.wf()
                    &&& t.dims@ == dims@
                    &&& t.data@.len() == prod(dims@)
                    &&& forall|i: int| 0 <= i < t.data@.len() ==> t.data@[i] == value
                },
                None => !ranges_fit(dims@),
            },
    {
        if !check_ranges_fit(&dims) {
            return None;
        }
        let n = prod_range(&dims, 0, dims.len());
        proof {
            assert(dims@.subrange(0, dims@.len() as int) =~= dims@);
        }
        let mut data: Vec<u32> = Vec::new();
        while data.len() < n
            invariant
                data@.len() <= n,
                forall|i: int| 0 <= i < data@.len() ==> data@[i] == value,
            decreases n - data@.len(),
        {
            data.push(value);
        }
        Some(Tensor { dims, data })
    }

    /// A tensor built from a shape and flat data; `None` exactly when the
    /// pair is not well formed.
    pub fn from_parts(dims: Vec<usize>, data: Vec<u32>) -> (r: Option<Tensor>)
        ensures
            match r {
                Some(t) => t.wf() && t.dims@ == dims@ && t.data@ == data@,
                None => !ranges_fit(dims@) || data@.len() != prod(dims@),
            },
    {
        if !check_ranges_fit(&dims) {
            return None;
        }
        let n = prod_range(&dims, 0, dims.len());
        proof {
            assert(dims@.subrange(0, dims@.len() as int) =~= dims@);
        }
        if data.len() != n {
            return None;
        }
        Some(Tensor { dims, data })
    }

    /// Reads `size` positions along `axis` starting at `start`: positions
    /// past the end of the tensor read as zero. This is both slicing (the
    /// range lies inside) and right-padding a final short chunk.
    #[verifier::loop_isolation(false)]
    pub fn chunk_axis(&self, axis: usize, start: usize, size: usize) -> (r: Tensor)
        requires
            self.wf(),
            axis < self.rank(),
            ranges_fit(self.dims@.update(axis as int, size)),
        ensures
            r.wf(),
            r.dims@ == self.dims@.update(axis as int, size),
            forall|o: int, j: int, k: int|
                0 <= o < self.outer(axis as int) && 0 <= j < size && 0 <= k < self.inner(
                    axis as int,
                ) ==> r.at(axis as int, o, j, k) == chunk_elem(
                    *self,
                    axis as int,
                    start as int,
                    o,
                    j,
                    k,
                ),
    {
        let ghost newdims = self.dims@.update(axis as int, size);
        let dlen: usize = self.data.len();
        let nd: usize = self.dims.len();
        let l: usize = self.dims[axis];
        let outer: usize = prod_range(&self.dims, 0, axis);
        let inner: usize = prod_range(&self.dims, axis + 1, nd);
        let limit: usize = if start >= l {
            0
        } else {
            l - start
        };
        let mut dims2: Vec<usize> = Vec::new();
        let mut di: usize = 0;
        while di < self.dims.len()
            invariant
                di <= self.dims@.len(),
                dims2@ == newdims.take(di as int),
            decreases self.dims@.len() - di,
        {
            if di == axis {
                dims2.push(size);
            } else {
                dims2.push(self.dims[di]);
            }
            proof {
                assert(newdims.take(di + 1).drop_last() =~= newdims.take(di as int));
            }
            di = di + 1;
        }
        proof {
            assert(dims2@ =~= newdims);
            lemma_prod_split3(self.dims@, axis as int);
            lemma_prod_split3(newdims, axis as int);
            assert(newdims.subrange(0, axis as int) =~= self.dims@.subrange(0, axis as int));
            assert(newdims.subrange(axis + 1, newdims.len() as int) =~= self.dims@.subrange(
                axis + 1,
                self.dims@.len() as int,
            ));
            assert(newdims.subrange(0, newdims.len() as int) =~= newdims);
            lemma_prod_nonneg(self.dims@.subrange(0, axis as int));
            lemma_prod_nonneg(self.dims@.subrange(axis + 1, self.dims@.len() as int));
        }
        let mut out: Vec<u32> = Vec::new();
        let mut o: usize = 0;
        while o < outer
            invariant
                o <= outer,
                out@.len() == o * size * inner,
                forall|o2: int, j2: int, k2: int|
                    0 <= o2 < o && 0 <= j2 < size && 0 <= k2 < inner ==> out@[flat_index(
                        o2,
                        j2,
                        k2,
                        size as int,
                        inner as int,
                    )] == chunk_elem(*self, axis as int, start as int, o2, j2, k2),
            decreases outer - o,
        {
            let mut j: usize = 0;
            while j < size
                invariant
                    o < outer,
                    j <= size,
                    out@.len() == (o * size + j) * inner,
                    forall|o2: int, j2: int, k2: int|
                        0 <= o2 < o && 0 <= j2 < size && 0 <= k2 < inner ==> out@[flat_index(
                            o2,
                            j2,
                            k2,
                            size as int,
                            inner as int,
                        )] == chunk_elem(*self, axis as int, start as int, o2, j2, k2),
                    forall|j2: int, k2: int|
                        0 <= j2 < j && 0 <= k2 < inner ==> out@[flat_index(
                            o as int,
                            j2,
                            k2,
                            size as int,
                            inner as int,
                        )] == chunk_elem(*self, axis as int, start as int, o as int, j2, k2),
                decreases size - j,
            {
                let mut k: usize = 0;
                while k < inner
                    invariant
                        o < outer,
                        j < size,
                        k <= inner,
                        out@.len() == (o * size + j) * inner + k,
                        forall|o2: int, j2: int, k2: int|
                            0 <= o2 < o && 0 <= j2 < size && 0 <= k2 < inner ==> out@[flat_index(
                                o2,
                                j2,
                                k2,
                                size as int,
                                inner as int,
                            )] == chunk_elem(*self, axis as int, start as int, o2, j2, k2),
                        forall|j2: int, k2: int|
                            0 <= j2 < j && 0 <= k2 < inner ==> out@[flat_index(
                                o as int,
                                j2,
                                k2,
                                size as int,
                                inner as int,
                            )] == chunk_elem(*self, axis as int, start as int, o as int, j2, k2),
                        forall|k2: int|
                            0 <= k2 < k ==> out@[flat_index(
                                o as int,
                                j as int,
                                k2,
                                size as int,
                                inner as int,
                            )] == chunk_elem(
                                *self,
                                axis as int,
                                start as int,
                                o as int,
                                j as int,
                                k2,
                            ),
                    decreases inner - k,
                {
                    proof {
                        lemma_flat_index_bound(
                            o as int,
                            j as int,
                            k as int,
                            outer as int,
                            size as int,
                            inner as int,
                        );
                    }
                    let v: u32 = if j < limit {
                        proof {
                            lemma_flat_index_bound(
                                o as int,
                                start + j,
                                k as int,
                                outer as int,
                                l as int,
                                inner as int,
                            );
                            assert(self.data@.len() == outer * l * inner);
                            assert(o * l + (start + j) <= (o * l + (start + j)) * inner + k)
                                by (nonlinear_arith)
                                requires
                                    1 <= inner,
                                    0 <= k,
                                    0 <= o * l,
                                    0 <= start + j,
                            ;
                        }
                        self.data[(o * l + (start + j)) * inner + k]
                    } else {
                        0
                    };
                    out.push(v);
                    proof {
                        assert(out@[flat_index(
                            o as int,
                            j as int,
                            k as int,
                            size as int,
                            inner as int,
                        )] == chunk_elem(*self, axis as int, start as int, o as int, j as int, k as int));
                        assert forall|o2: int, j2: int, k2: int|
                            0 <= o2 < o && 0 <= j2 < size && 0 <= k2 < inner implies out@[flat_index(
                            o2,
                            j2,
                            k2,
                            size as int,
                            inner as int,
                        )] == chunk_elem(*self, axis as int, start as int, o2, j2, k2) by {
                            lemma_flat_lex_lt(
                                o2, j2, k2,
                                o as int, j as int, k as int,
                                size as int, inner as int,
                            );
                        }
                        assert forall|j2: int, k2: int|
                            0 <= j2 < j && 0 <= k2 < inner implies out@[flat_index(
                            o as int,
                            j2,
                            k2,
                            size as int,
                            inner as int,
                        )] == chunk_elem(*self, axis as int, start as int, o as int, j2, k2) by {
                            lemma_flat_lex_lt(
                                o as int, j2, k2,
                                o as int, j as int, k as int,
                                size as int, inner as int,
                            );
                        }
                        assert forall|k2: int|
                            0 <= k2 < k + 1 implies out@[flat_index(
                            o as int,
                            j as int,
                            k2,
                            size as int,
                            inner as int,
                        )] == chunk_elem(*self, axis as int, start as int, o as int, j as int, k2) by {
                            if k2 < k {
                                lemma_flat_lex_lt(
                                    o as int, j as int, k2,
                                    o as int, j as int, k as int,
                                    size as int, inner as int,
                                );
                            }
                        }
                    }
                    k = k + 1;
                }
                proof {
                    assert((o * size + j) * inner + inner == (o * size + (j + 1)) * inner)
                        by (nonlinear_arith);
                    assert forall|j2: int, k2: int|
                        0 <= j2 < j + 1 && 0 <= k2 < inner implies out@[flat_index(
                        o as int,
                        j2,
                        k2,
                        size as int,
                        inner as int,
                    )] == chunk_elem(*self, axis as int, start as int, o as int, j2, k2) by {}
                }
                j = j + 1;
            }
            proof {
                assert((o * size + size) * inner == (o + 1) * size * inner) by (nonlinear_arith);
                assert forall|o2: int, j2: int, k2: int|
                    0 <= o2 < o + 1 && 0 <= j2 < size && 0 <= k2 < inner implies out@[flat_index(
                    o2,
                    j2,
                    k2,
                    size as int,
                    inner as int,
                )] == chunk_elem(*self, axis as int, start as int, o2, j2, k2) by {}
            }
            o = o + 1;
        }
        let r = Tensor { dims: dims2, data: out };
        proof {
            assert(r.dims@.subrange(0, axis as int) =~= self.dims@.subrange(0, axis as int));
            assert(r.dims@.subrange(axis + 1, r.dims@.len() as int) =~= self.dims@.subrange(
                axis + 1,
                self.dims@.len() as int,
            ));
        }
        r
    }

    /// Writes `src` into `self` along `axis` starting at position `start`;
    /// `src` must agree with `self` on every other dimension and fit within
    /// the axis. Every position outside the written range keeps its value.
    #[verifier::loop_isolation(false)]
    pub fn write_axis(&mut self, axis: usize, start: usize, src: &Tensor)
        requires
            old(self).wf(),
            src.wf(),
            axis < old(self).rank(),
            src.rank() == old(self).rank(),
            forall|i: int| 0 <= i < old(self).rank() && i != axis ==> src.dim(i) == old(self).dim(i),
            start + src.dim(axis as int) <= old(self).dim(axis as int),
        ensures
            final(self).wf(),
            final(self).dims@ == old(self).dims@,
            final(self).data@.len() == old(self).data@.len(),
            forall|o: int, j: int, k: int|
                0 <= o < old(self).outer(axis as int) && 0 <= j < old(self).dim(axis as int) && 0
                    <= k < old(self).inner(axis as int) ==> final(self).at(axis as int, o, j, k)
                    == (if start <= j < start + src.dim(axis as int) {
                    src.at(axis as int, o, j - start, k)
                } else {
                    old(self).at(axis as int, o, j, k)
                }),
    {
        let dlen: usize = self.data.len();
        let slen: usize = src.data.len();
        let nd: usize = self.dims.len();
        let l: usize = self.dims[axis];
        let sl: usize = src.dims[axis];
        let outer: usize = prod_range(&self.dims, 0, axis);
        let inner: usize = prod_range(&self.dims, axis + 1, nd);
        proof {
            lemma_prod_split3(self.dims@, axis as int);
            lemma_prod_split3(src.dims@, axis as int);
            assert forall|i: int| 0 <= i < axis implies src.dims@.subrange(0, axis as int)[i]
                == self.dims@.subrange(0, axis as int)[i] by {
                assert(src.dim(i) == old(self).dim(i));
            }
            assert(src.dims@.subrange(0, axis as int) =~= self.dims@.subrange(0, axis as int));
            assert forall|i: int| 0 <= i < self.dims@.len() - axis - 1 implies #[trigger] (
            src.dims@.subrange(axis + 1, src.dims@.len() as int)[i]) == self.dims@.subrange(
                axis + 1,
                self.dims@.len() as int,
            )[i] by {
                assert(src.dim(axis + 1 + i) == old(self).dim(axis + 1 + i));
            }
            assert(src.dims@.subrange(axis + 1, src.dims@.len() as int) =~= self.dims@.subrange(
                axis + 1,
                self.dims@.len() as int,
            ));
            lemma_prod_nonneg(self.dims@.subrange(0, axis as int));
            lemma_prod_nonneg(self.dims@.subrange(axis + 1, self.dims@.len() as int));
        }
        let ghost orig = *self;
        let mut o: usize = 0;
        while o < outer
            invariant
                o <= outer,
                self.dims@ == orig.dims@,
                self.data@.len() == orig.data@.len(),
                forall|o2: int, j2: int, k2: int|
                    0 <= o2 < outer && 0 <= j2 < l && 0 <= k2 < inner ==> self.data@[flat_index(
                        o2,
                        j2,
                        k2,
                        l as int,
                        inner as int,
                    )] == (if start <= j2 < start + sl && o2 < o {
                        src.at(axis as int, o2, j2 - start, k2)
                    } else {
                        orig.data@[flat_index(o2, j2, k2, l as int, inner as int)]
                    }),
            decreases outer - o,
        {
            let mut j: usize = 0;
            while j < sl
                invariant
                    o < outer,
                    j <= sl,
                    self.dims@ == orig.dims@,
                    self.data@.len() == orig.data@.len(),
                    forall|o2: int, j2: int, k2: int|
                        0 <= o2 < outer && 0 <= j2 < l && 0 <= k2 < inner ==> self.data@[flat_index(
                            o2,
                            j2,
                            k2,
                            l as int,
                            inner as int,
                        )] == (if start <= j2 < start + sl && (o2 < o || (o2 == o && j2 < start
                            + j)) {
                            src.at(axis as int, o2, j2 - start, k2)
                        } else {
                            orig.data@[flat_index(o2, j2, k2, l as int, inner as int)]
                        }),
                decreases sl - j,
            {
                let mut k: usize = 0;
                while k < inner
                    invariant
                        o < outer,
                        j < sl,
                        k <= inner,
                        self.dims@ == orig.dims@,
                        self.data@.len() == orig.data@.len(),
                        forall|o2: int, j2: int, k2: int|
                            0 <= o2 < outer && 0 <= j2 < l && 0 <= k2 < inner ==> self.data@[
                            flat_index(
                                o2,
                                j2,
                                k2,
                                l as int,
                                inner as int,
                            )] == (if start <= j2 < start + sl && (o2 < o || (o2 == o && (j2 < start
                                + j || (j2 == start + j && k2 < k)))) {
                                src.at(axis as int, o2, j2 - start, k2)
                            } else {
                                orig.data@[flat_index(o2, j2, k2, l as int, inner as int)]
                            }),
                    decreases inner - k,
                {
                    proof {
                        lemma_flat_index_bound(
                            o as int,
                            start + j,
                            k as int,
                            outer as int,
                            l as int,
                            inner as int,
                        );
                        lemma_flat_index_bound(
                            o as int,
                            j as int,
                            k as int,
                            outer as int,
                            sl as int,
                            inner as int,
                        );
                        assert(self.data@.len() == outer * l * inner);
                        assert(src.data@.len() == outer * sl * inner);
                        assert(o * sl + j <= (o * sl + j) * inner + k) by (nonlinear_arith)
                            requires
                                1 <= inner,
                                0 <= k,
                                0 <= o * sl,
                                0 <= j,
                        ;
                        assert(o * l + (start + j) <= (o * l + (start + j)) * inner + k)
                            by (nonlinear_arith)
                            requires
                                1 <= inner,
                                0 <= k,
                                0 <= o * l,
                                0 <= start + j,
                        ;
                    }
                    let v: u32 = src.data[(o * sl + j) * inner + k];
                    let di: usize = (o * l + (start + j)) * inner + k;
                    self.data.set(di, v);
                    proof {
                        assert forall|o2: int, j2: int, k2: int|
                            0 <= o2 < outer && 0 <= j2 < l && 0 <= k2 < inner implies self.data@[
                        flat_index(
                            o2,
                            j2,
                            k2,
                            l as int,
                            inner as int,
                        )] == (if start <= j2 < start + sl && (o2 < o || (o2 == o && (j2 < start + j
                            || (j2 == start + j && k2 < k + 1)))) {
                            src.at(axis as int, o2, j2 - start, k2)
                        } else {
                            orig.data@[flat_index(o2, j2, k2, l as int, inner as int)]
                        }) by {
                            lemma_flat_index_bound(
                                o2,
                                j2,
                                k2,
                                outer as int,
                                l as int,
                                inner as int,
                            );
                            if flat_index(o2, j2, k2, l as int, inner as int) == di {
                                lemma_flat_index_injective(
                                    o2,
                                    j2,
                                    k2,
                                    o as int,
                                    start + j,
                                    k as int,
                                    l as int,
                                    inner as int,
                                );
                                assert(src.dim(axis as int) == sl);
                                assert(src.inner(axis as int) == inner);
                                assert(src.at(axis as int, o2, j2 - start, k2) == src.data@[
                                flat_index(o as int, j as int, k as int, sl as int, inner as int)]);
                            }
                        }
                    }
                    k = k + 1;
                }
                proof {
                    assert forall|o2: int, j2: int, k2: int|
                        0 <= o2 < outer && 0 <= j2 < l && 0 <= k2 < inner implies self.data@[
                    flat_index(
                        o2,
                        j2,
                        k2,
                        l as int,
                        inner as int,
                    )] == (if start <= j2 < start + sl && (o2 < o || (o2 == o && j2 < start + (j
                        + 1))) {
                        src.at(axis as int, o2, j2 - start, k2)
                    } else {
                        orig.data@[flat_index(o2, j2, k2, l as int, inner as int)]
                    }) by {}
                }
                j = j + 1;
            }
            proof {
                assert forall|o2: int, j2: int, k2: int|
                    0 <= o2 < outer && 0 <= j2 < l && 0 <= k2 < inner implies self.data@[flat_index(
                    o2,
                    j2,
                    k2,
                    l as int,
                    inner as int,
                )] == (if start <= j2 < start + sl && o2 < o + 1 {
                    src.at(axis as int, o2, j2 - start, k2)
                } else {
                    orig.data@[flat_index(o2, j2, k2, l as int, inner as int)]
                }) by {}
            }
            o = o + 1;
        }
        proof {
            assert forall|o2: int, j2: int, k2: int|
                0 <= o2 < orig.outer(axis as int) && 0 <= j2 < orig.dim(axis as int) && 0 <= k2
                    < orig.inner(axis as int) implies self.at(axis as int, o2, j2, k2) == (if start
                <= j2 < start + src.dim(axis as int) {
                src.at(axis as int, o2, j2 - start, k2)
            } else {
                orig.at(axis as int, o2, j2, k2)
            }) by {}
        }
    }
}

pub proof fn lemma_prod_singleton(w: usize)
    ensures
        prod(seq![w]) == w,
{
    assert(seq![w].drop_last() =~= Seq::<usize>::empty());
    assert(seq![w].last() == w);
    assert(prod(Seq::<usize>::empty()) == 1);
}

/// Shrinking one dimension keeps every range product within the machine.
pub proof fn lemma_ranges_fit_shrink(s: Seq<usize>, a: int, v: usize)
    requires
        0 <= a < s.len(),
        ranges_fit(s),
        v <= s[a],
    ensures
        ranges_fit(s.update(a, v)),
{
    let u = s.update(a, v);
    assert forall|i: int, j: int| 0 <= i <= j <= u.len() implies prod(#[trigger] u.subrange(i, j))
        <= usize::MAX by {
        if j <= a || a < i {
            assert(u.subrange(i, j) =~= s.subrange(i, j));
            assert(prod(s.subrange(i, j)) <= usize::MAX);
        } else {
            let p1 = s.subrange(i, a);
            let p3 = s.subrange(a + 1, j);
            assert(u.subrange(i, j) =~= (p1 + seq![v]) + p3);
            assert(s.subrange(i, j) =~= (p1 + seq![s[a]]) + p3);
            lemma_prod_concat(p1 + seq![v], p3);
            lemma_prod_concat(p1, seq![v]);
            lemma_prod_concat(p1 + seq![s[a]], p3);
            lemma_prod_concat(p1, seq![s[a]]);
            assert(seq![v].drop_last() =~= Seq::<usize>::empty());
            assert(seq![s[a]].drop_last() =~= Seq::<usize>::empty());
            lemma_prod_singleton(v);
            lemma_prod_singleton(s[a]);
            lemma_prod_nonneg(p1);
            lemma_prod_nonneg(p3);
            assert(prod(p1) * v * prod(p3) <= prod(p1) * (s[a] as int) * prod(p3))
                by (nonlinear_arith)
                requires
                    prod(p1) >= 0,
                    prod(p3) >= 0,
                    0 <= v <= s[a],
            ;
            assert(prod(s.subrange(i, j)) <= usize::MAX);
        }
    }
}

/// Do two shape vectors agree?
pub fn same_dims(a: &Vec<usize>, b: &Vec<usize>) -> (r: bool)
    ensures
        r == (a@ == b@),
{
    if a.len() != b.len() {
        return false;
    }
    let mut i: usize = 0;
    while i < a.len()
        invariant
            i <= a@.len(),
            a@.len() == b@.len(),
            forall|t: int| 0 <= t < i ==> a@[t] == b@[t],
        decreases a@.len() - i,
    {
        if a[i] != b[i] {
            return false;
        }
        i = i + 1;
    }
    proof {
        assert(a@ =~= b@);
    }
    true
}

} // verus!
