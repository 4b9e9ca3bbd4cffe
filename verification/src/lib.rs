//! Driver logic for running a compiled numeric computation graph: symbol
//! binding, instrumented node-by-node execution support, and a pulsed
//! streaming emulator that replays a finite input through a fixed-size
//! chunk interface.

pub mod errors;
pub mod symbols;
pub mod dims;
pub mod tensor;
pub mod pulse;
pub mod capture;

use vstd::prelude::*;

verus! {

/// Ceiling division over `usize`, written so that no intermediate sum can
/// overflow.
pub fn div_ceil(n: usize, d: usize) -> (r: usize)
    requires
        d > 0,
    ensures
        r == (n + d - 1) / (d as int),
{
    let q: usize = n / d;
    if n % d == 0 {
        assert(q == (n + d - 1) / (d as int)) by (nonlinear_arith)
            requires d > 0 && q == (n as int) / (d as int) && (n as int) % (d as int) == 0;
        q
    } else {
        assert(q < usize::MAX && q + 1 == (n + d - 1) / (d as int)) by (nonlinear_arith)
            requires
                d > 0 && q == (n as int) / (d as int) && (n as int) % (d as int) != 0
                    && n <= usize::MAX;
        q + 1
    }
}

} // verus!

