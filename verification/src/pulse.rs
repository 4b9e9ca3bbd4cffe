//! The pulsed streaming emulator: replays one finite input through a model
//! that consumes fixed-size chunks along a streaming axis while carrying
//! internal state between chunks. The session here owns the exact chunk and
//! offset arithmetic: slicing the input, zero-padding the final short
//! chunk, placing each produced chunk in a delay-padded buffer, and
//! trimming the result. The evaluation of each chunk itself is the model's
//! business: the caller feeds every chunk through it, in strict pulse
//! order, and hands the produced chunk back.

use vstd::prelude::*;

use crate::dims::{resolve_size, resolved_size_spec, DimExpr};
use crate::errors::{RunError, ShapeProblem};
use crate::symbols::SymbolTable;
use crate::tensor::{
    check_ranges_fit, chunk_elem, lemma_ranges_fit_shrink, ranges_fit, same_dims, Tensor,
};

verus! {

/// Streaming facts a pulsed model declares for a tensor: the streaming
/// axis, the fixed chunk size along it, how many leading output positions
/// are invalid, the expression for the total streamed length, and the
/// whole shape as dimension expressions.
#[derive(Debug)]
pub struct StreamFact {
    pub axis: usize,
    pub pulse: usize,
    pub delay: usize,
    pub dim: DimExpr,
    pub shape: Vec<DimExpr>,
}

/// The table a pulsed run resolves shapes under: only the stream-position
/// symbol is bound, to the actual input length.
pub open spec fn stream_table(sym: char, l: int) -> Map<char, i64> {
    Map::<char, i64>::empty().insert(sym, l as i64)
}

/// Ceiling division, as a value.
pub open spec fn div_ceil_spec(l: int, p: int) -> int {
    (l + p - 1) / p
}

pub open spec fn ok_size(r: Result<usize, RunError>) -> int {
    match r {
        Ok(v) => v as int,
        Err(_) => 0,
    }
}

/// Streaming-axis length of the output buffer: the resolved output length,
/// plus the delay, plus headroom of four output chunks for data produced
/// with lag and for a trailing partly-filled chunk.
pub open spec fn buffer_axis_len_spec(out: StreamFact, m: Map<char, i64>) -> int {
    ok_size(resolved_size_spec(out.dim, m)) + out.delay + 4 * out.pulse
}

/// Shape of the output buffer: the declared output shape, resolved, with
/// the streaming axis widened to `buffer_axis_len_spec`.
pub open spec fn buffer_dims_spec(out: StreamFact, m: Map<char, i64>) -> Seq<usize> {
    Seq::new(
        out.shape@.len(),
        |i: int|
            if i == out.axis {
                buffer_axis_len_spec(out, m) as usize
            } else {
                ok_size(resolved_size_spec(out.shape@[i], m)) as usize
            },
    )
}

/// When a pulsed session can be set up at all: every declared dimension
/// resolves under the stream binding, the buffer fits the machine, and the
/// buffer axis has room for every chunk that will be written.
pub open spec fn session_viable(
    input: Tensor,
    in_axis: int,
    in_pulse: usize,
    out: StreamFact,
    sym: char,
) -> bool {
    let m = stream_table(sym, input.dim(in_axis));
    &&& resolved_size_spec(out.dim, m) is Ok
    &&& (forall|i: int|
        0 <= i < out.shape@.len() && i != out.axis ==> (#[trigger] resolved_size_spec(
            out.shape@[i],
            m,
        )) is Ok)
    &&& buffer_axis_len_spec(out, m) <= usize::MAX
    &&& ranges_fit(buffer_dims_spec(out, m))
    &&& div_ceil_spec(input.dim(in_axis), in_pulse as int) * out.pulse <= buffer_axis_len_spec(
        out,
        m,
    )
    &&& ranges_fit(input.dims@.update(in_axis, in_pulse))
}

/// One emulated stream: the input, the pulse bookkeeping, and the output
/// buffer chunks are written into. Pulses must be consumed and answered in
/// index order; the session enforces the order by construction.
pub struct PulsedSession {
    pub input: Tensor,
    pub in_axis: usize,
    pub in_pulse: usize,
    pub out_axis: usize,
    pub out_pulse: usize,
    pub delay: usize,
    pub output_dim: usize,
    pub buffer: Tensor,
    pub next_ix: usize,
    pub n_pulses: usize,
}

impl PulsedSession {
    pub open spec fn wf(self) -> bool {
        &&& self.input.wf()
        &&& self.buffer.wf()
        &&& self.in_axis < self.input.rank()
        &&& self.out_axis < self.buffer.rank()
        &&& 0 < self.in_pulse
        &&& 0 < self.out_pulse
        &&& self.n_pulses == div_ceil_spec(self.input.dim(self.in_axis as int), self.in_pulse as int)
        &&& self.buffer.dim(self.out_axis as int) == self.output_dim + self.delay + 4
            * self.out_pulse
        &&& self.n_pulses * self.out_pulse <= self.buffer.dim(self.out_axis as int)
        &&& self.next_ix <= self.n_pulses
        &&& ranges_fit(self.input.dims@.update(self.in_axis as int, self.in_pulse))
    }

    /// Sets a session up: resolves the output length by binding the stream
    /// symbol to the input length, resolves the buffer shape, and allocates
    /// the zeroed output buffer. Succeeds exactly when the declared shapes
    /// resolve and fit (`session_viable`).
    #[verifier::loop_isolation(false)]
    pub fn new(
        input: Tensor,
        in_axis: usize,
        in_pulse: usize,
        out: &StreamFact,
        stream_sym: char,
    ) -> (r: Result<PulsedSession, RunError>)
        requires
            input.wf(),
            in_axis < input.rank(),
            0 < in_pulse,
            0 < out.pulse,
            out.axis < out.shape@.len(),
            input.dim(in_axis as int) <= i64::MAX,
        ensures
            match r {
                Ok(s) => {
                    &&& session_viable(input, in_axis as int, in_pulse, *out, stream_sym)
                    &&& s.wf()
                    &&& s.input == input
                    &&& s.in_axis == in_axis
                    &&& s.in_pulse == in_pulse
                    &&& s.out_axis == out.axis
                    &&& s.out_pulse == out.pulse
                    &&& s.delay == out.delay
                    &&& s.next_ix == 0
                    &&& s.n_pulses == div_ceil_spec(input.dim(in_axis as int), in_pulse as int)
                    &&& Ok::<usize, RunError>(s.output_dim) == resolved_size_spec(
                        out.dim,
                        stream_table(stream_sym, input.dim(in_axis as int)),
                    )
                    &&& s.buffer.dims@ == buffer_dims_spec(
                        *out,
                        stream_table(stream_sym, input.dim(in_axis as int)),
                    )
                    &&& forall|i: int| 0 <= i < s.buffer.data@.len() ==> s.buffer.data@[i] == 0u32
                },
                Err(e) => {
                    &&& !session_viable(input, in_axis as int, in_pulse, *out, stream_sym)
                    &&& (resolved_size_spec(
                        out.dim,
                        stream_table(stream_sym, input.dim(in_axis as int)),
                    ) == Err::<usize, RunError>(e) || (exists|i: int|
                        0 <= i < out.shape@.len() && i != out.axis && #[trigger] resolved_size_spec(
                            out.shape@[i],
                            stream_table(stream_sym, input.dim(in_axis as int)),
                        ) == Err::<usize, RunError>(e)) || e == (RunError::ShapeComputation {
                        problem: ShapeProblem::TooLarge,
                    }))
                },
            },
    {
        let ghost m = stream_table(stream_sym, input.dim(in_axis as int));
        let l: usize = input.dims[in_axis];
        let mut table = SymbolTable::new();
        table.bind(stream_sym, l as i64);
        proof {
            assert(table@ == m);
        }
        let output_dim: usize = match resolve_size(&out.dim, &table) {
            Ok(v) => v,
            Err(e) => {
                return Err(e);
            },
        };
        let headroom: usize = match out.pulse.checked_mul(4) {
            Some(h) => h,
            None => {
                return Err(RunError::ShapeComputation { problem: ShapeProblem::TooLarge });
            },
        };
        let part: usize = match output_dim.checked_add(out.delay) {
            Some(x) => x,
            None => {
                return Err(RunError::ShapeComputation { problem: ShapeProblem::TooLarge });
            },
        };
        let axis_len: usize = match part.checked_add(headroom) {
            Some(y) => y,
            None => {
                return Err(RunError::ShapeComputation { problem: ShapeProblem::TooLarge });
            },
        };
        let mut bdims: Vec<usize> = Vec::new();
        let mut i: usize = 0;
        while i < out.shape.len()
            invariant
                i <= out.shape@.len(),
                out.axis < out.shape@.len(),
                axis_len == buffer_axis_len_spec(*out, m),
                table@ == m,
                bdims@ == buffer_dims_spec(*out, m).take(i as int),
                forall|t: int|
                    0 <= t < i && t != out.axis ==> (#[trigger] resolved_size_spec(
                        out.shape@[t],
                        m,
                    )) is Ok,
            decreases out.shape@.len() - i,
        {
            if i == out.axis {
                bdims.push(axis_len);
            } else {
                match resolve_size(&out.shape[i], &table) {
                    Ok(v) => {
                        bdims.push(v);
                    },
                    Err(e) => {
                        proof {
                            assert(0 <= i < out.shape@.len() && i != out.axis
                                && resolved_size_spec(out.shape@[i as int], m) == Err::<
                                usize,
                                RunError,
                            >(e));
                        }
                        return Err(e);
                    },
                }
            }
            proof {
                assert(buffer_dims_spec(*out, m).take(i + 1).drop_last() =~= buffer_dims_spec(
                    *out,
                    m,
                ).take(i as int));
            }
            i = i + 1;
        }
        proof {
            assert(bdims@ =~= buffer_dims_spec(*out, m));
        }
        let buffer = match Tensor::filled(bdims, 0) {
            Some(b) => b,
            None => {
                return Err(RunError::ShapeComputation { problem: ShapeProblem::TooLarge });
            },
        };
        let n_pulses = crate::div_ceil(l, in_pulse);
        match n_pulses.checked_mul(out.pulse) {
            Some(w) => {
                if w > axis_len {
                    return Err(RunError::ShapeComputation { problem: ShapeProblem::TooLarge });
                }
            },
            None => {
                return Err(RunError::ShapeComputation { problem: ShapeProblem::TooLarge });
            },
        }
        let mut cdims: Vec<usize> = Vec::new();
        let nd: usize = input.dims.len();
        let mut ci: usize = 0;
        while ci < nd
            invariant
                ci <= nd,
                nd == input.dims@.len(),
                in_axis < nd,
                cdims@ == input.dims@.update(in_axis as int, in_pulse).take(ci as int),
            decreases nd - ci,
        {
            if ci == in_axis {
                cdims.push(in_pulse);
            } else {
                cdims.push(input.dims[ci]);
            }
            proof {
                assert(input.dims@.update(in_axis as int, in_pulse).take(ci + 1).drop_last()
                    =~= input.dims@.update(in_axis as int, in_pulse).take(ci as int));
            }
            ci = ci + 1;
        }
        proof {
            assert(cdims@ =~= input.dims@.update(in_axis as int, in_pulse));
        }
        if !check_ranges_fit(&cdims) {
            return Err(RunError::ShapeComputation { problem: ShapeProblem::TooLarge });
        }
        Ok(
            PulsedSession {
                input,
                in_axis,
                in_pulse,
                out_axis: out.axis,
                out_pulse: out.pulse,
                delay: out.delay,
                output_dim,
                buffer,
                next_ix: 0,
                n_pulses,
            },
        )
    }

    /// Are there pulses left to feed?
    pub fn done(&self) -> (r: bool)
        ensures
            r == (self.next_ix == self.n_pulses),
    {
        self.next_ix == self.n_pulses
    }

    /// The chunk to feed for the current pulse: input positions
    /// `[next_ix * pulse, (next_ix + 1) * pulse)` along the streaming axis,
    /// zero-padded past the end of the input. Its streaming axis always has
    /// length exactly `pulse`.
    pub fn next_chunk(&self) -> (r: Tensor)
        requires
            self.wf(),
            self.next_ix < self.n_pulses,
        ensures
            r.wf(),
            r.dims@ == self.input.dims@.update(self.in_axis as int, self.in_pulse),
            r.dim(self.in_axis as int) == self.in_pulse,
            forall|o: int, j: int, k: int|
                0 <= o < self.input.outer(self.in_axis as int) && 0 <= j < self.in_pulse && 0 <= k
                    < self.input.inner(self.in_axis as int) ==> r.at(self.in_axis as int, o, j, k)
                    == chunk_elem(
                    self.input,
                    self.in_axis as int,
                    self.next_ix * self.in_pulse,
                    o,
                    j,
                    k,
                ),
    {
        proof {
            let l = self.input.dim(self.in_axis as int);
            let p = self.in_pulse as int;
            let q = div_ceil_spec(l, p);
            assert(q * p <= l + p - 1) by (nonlinear_arith)
                requires
                    p >= 1,
                    q == (l + p - 1) / p,
                    l >= 0,
            ;
            assert((self.next_ix as int) * p <= (q - 1) * p) by (nonlinear_arith)
                requires
                    0 <= self.next_ix as int,
                    self.next_ix as int <= q - 1,
                    p >= 1,
            ;
            assert((q - 1) * p == q * p - p) by (nonlinear_arith);
            assert((self.next_ix as int) * p < l);
        }
        let start: usize = self.next_ix * self.in_pulse;
        self.input.chunk_axis(self.in_axis, start, self.in_pulse)
    }

    /// Takes the produced chunk for the current pulse and writes it at
    /// streaming-axis offset `[out_pulse * ix, out_pulse * (ix + 1))` of the
    /// buffer. Fails, changing nothing, exactly when the chunk's shape is
    /// not the declared output-chunk shape.
    #[verifier::loop_isolation(false)]
    pub fn push_result(&mut self, chunk: &Tensor) -> (r: Result<(), RunError>)
        requires
            old(self).wf(),
            old(self).next_ix < old(self).n_pulses,
            chunk.wf(),
        ensures
            match r {
                Ok(()) => {
                    &&& chunk.dims@ == old(self).buffer.dims@.update(
                        old(self).out_axis as int,
                        old(self).out_pulse,
                    )
                    &&& final(self).wf()
                    &&& final(self).next_ix == old(self).next_ix + 1
                    &&& final(self).input == old(self).input
                    &&& final(self).in_axis == old(self).in_axis
                    &&& final(self).in_pulse == old(self).in_pulse
                    &&& final(self).out_axis == old(self).out_axis
                    &&& final(self).out_pulse == old(self).out_pulse
                    &&& final(self).delay == old(self).delay
                    &&& final(self).output_dim == old(self).output_dim
                    &&& final(self).n_pulses == old(self).n_pulses
                    &&& final(self).buffer.dims@ == old(self).buffer.dims@
                    &&& forall|o: int, j: int, k: int|
                        0 <= o < old(self).buffer.outer(old(self).out_axis as int) && 0 <= j < old(
                            self,
                        ).buffer.dim(old(self).out_axis as int) && 0 <= k < old(
                            self,
                        ).buffer.inner(old(self).out_axis as int) ==> final(self).buffer.at(
                            old(self).out_axis as int,
                            o,
                            j,
                            k,
                        ) == (if old(self).out_pulse * old(self).next_ix <= j < old(self).out_pulse
                            * (old(self).next_ix + 1) {
                            chunk.at(
                                old(self).out_axis as int,
                                o,
                                j - old(self).out_pulse * old(self).next_ix,
                                k,
                            )
                        } else {
                            old(self).buffer.at(old(self).out_axis as int, o, j, k)
                        })
                },
                Err(e) => {
                    &&& *final(self) == *old(self)
                    &&& chunk.dims@ != old(self).buffer.dims@.update(
                        old(self).out_axis as int,
                        old(self).out_pulse,
                    )
                    &&& e matches RunError::Evaluation { .. }
                },
            },
    {
        let nd: usize = self.buffer.dims.len();
        let mut expect: Vec<usize> = Vec::new();
        let mut i: usize = 0;
        while i < nd
            invariant
                i <= nd,
                nd == self.buffer.dims@.len(),
                self.out_axis < nd,
                self == old(self),
                expect@ == self.buffer.dims@.update(self.out_axis as int, self.out_pulse).take(
                    i as int,
                ),
            decreases nd - i,
        {
            if i == self.out_axis {
                expect.push(self.out_pulse);
            } else {
                expect.push(self.buffer.dims[i]);
            }
            proof {
                assert(self.buffer.dims@.update(self.out_axis as int, self.out_pulse).take(
                    i + 1,
                ).drop_last() =~= self.buffer.dims@.update(self.out_axis as int, self.out_pulse)
                    .take(i as int));
            }
            i = i + 1;
        }
        proof {
            assert(expect@ =~= self.buffer.dims@.update(self.out_axis as int, self.out_pulse));
        }
        if !same_dims(&chunk.dims, &expect) {
            return Err(
                RunError::Evaluation {
                    context: "a produced chunk does not have the declared output chunk shape".to_owned(),
                },
            );
        }
        proof {
            assert((self.next_ix + 1) * self.out_pulse <= self.n_pulses * self.out_pulse)
                by (nonlinear_arith)
                requires
                    self.next_ix + 1 <= self.n_pulses,
                    0 < self.out_pulse,
            ;
            assert((self.next_ix + 1) * self.out_pulse == self.next_ix * self.out_pulse
                + self.out_pulse) by (nonlinear_arith);
        }
        proof {
            assert(chunk.dims@ == self.buffer.dims@.update(self.out_axis as int, self.out_pulse));
            assert(chunk.dim(self.out_axis as int) == self.out_pulse);
            assert(chunk.rank() == self.buffer.rank());
            assert forall|i2: int|
                0 <= i2 < self.buffer.rank() && i2 != self.out_axis implies chunk.dim(i2)
                == self.buffer.dim(i2) by {}
        }
        let start: usize = self.out_pulse * self.next_ix;
        self.buffer.write_axis(self.out_axis, start, chunk);
        proof {
            let ax = old(self).out_axis as int;
            assert forall|o: int, j: int, k: int|
                0 <= o < old(self).buffer.outer(ax) && 0 <= j < old(self).buffer.dim(ax) && 0 <= k
                    < old(self).buffer.inner(ax) implies self.buffer.at(ax, o, j, k) == (if old(
                self,
            ).out_pulse * old(self).next_ix <= j < old(self).out_pulse * (old(self).next_ix
                + 1) {
                chunk.at(ax, o, j - old(self).out_pulse * old(self).next_ix, k)
            } else {
                old(self).buffer.at(ax, o, j, k)
            }) by {
                assert(start + chunk.dim(ax) == old(self).out_pulse * (old(self).next_ix + 1));
            }
        }
        self.next_ix = self.next_ix + 1;
        Ok(())
    }

    /// Trims the buffer once every pulse is answered: drops the leading
    /// `delay` positions of the streaming axis, then truncates to exactly
    /// the resolved output length.
    pub fn finish(&self) -> (r: Tensor)
        requires
            self.wf(),
            self.next_ix == self.n_pulses,
        ensures
            r.wf(),
            r.dims@ == self.buffer.dims@.update(self.out_axis as int, self.output_dim),
            r.dim(self.out_axis as int) == self.output_dim,
            forall|o: int, j: int, k: int|
                0 <= o < self.buffer.outer(self.out_axis as int) && 0 <= j < self.output_dim && 0
                    <= k < self.buffer.inner(self.out_axis as int) ==> r.at(
                    self.out_axis as int,
                    o,
                    j,
                    k,
                ) == self.buffer.at(self.out_axis as int, o, j + self.delay, k),
    {
        proof {
            lemma_ranges_fit_shrink(self.buffer.dims@, self.out_axis as int, self.output_dim);
        }
        let r = self.buffer.chunk_axis(self.out_axis, self.delay, self.output_dim);
        proof {
            assert forall|o: int, j: int, k: int|
                0 <= o < self.buffer.outer(self.out_axis as int) && 0 <= j < self.output_dim && 0
                    <= k < self.buffer.inner(self.out_axis as int) implies r.at(
                self.out_axis as int,
                o,
                j,
                k,
            ) == self.buffer.at(self.out_axis as int, o, j + self.delay, k) by {
                assert(self.delay + j < self.buffer.dim(self.out_axis as int));
            }
        }
        r
    }
}

} // verus!
