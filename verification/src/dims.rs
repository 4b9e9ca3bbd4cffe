//! Dimension expressions: each dimension of a shape fact is either a fixed
//! integer or an expression over free symbols. Every expression must resolve
//! to a concrete non-negative size once the referenced symbols are bound.

use vstd::prelude::*;

use crate::errors::{RunError, ShapeProblem};
use crate::symbols::SymbolTable;

verus! {

/// Why a dimension expression failed to resolve.
#[derive(Debug, Clone, Copy, PartialEq, Eq, Structural)]
pub enum DimError {
    /// The expression references a symbol with no binding.
    Unresolved { symbol: char },
    /// An intermediate value left the 64-bit signed range.
    Overflow,
}

/// A dimension expression over single-character symbols, evaluated in
/// checked 64-bit signed arithmetic. The left operand of a binary node is
/// evaluated first, so the left failure is the one reported.
#[derive(Debug, PartialEq, Eq)]
pub enum DimExpr {
    Val(i64),
    Sym(char),
    Add(Box<DimExpr>, Box<DimExpr>),
    Sub(Box<DimExpr>, Box<DimExpr>),
    Mul(Box<DimExpr>, Box<DimExpr>),
}

impl DimExpr {
    /// What evaluation under the bindings `m` yields: the value, or the
    /// first failure met in a left-to-right walk.
    pub open spec fn eval_spec(self, m: Map<char, i64>) -> Result<i64, DimError>
        decreases self,
    {
        match self {
            DimExpr::Val(v) => Ok(v),
            DimExpr::Sym(c) => if m.contains_key(c) {
                Ok(m[c])
            } else {
                Err(DimError::Unresolved { symbol: c })
            },
            DimExpr::Add(a, b) => match (a.eval_spec(m), b.eval_spec(m)) {
                (Ok(x), Ok(y)) => if i64::MIN <= x + y <= i64::MAX {
                    Ok((x + y) as i64)
                } else {
                    Err(DimError::Overflow)
                },
                (Err(e), _) => Err(e),
                (_, Err(e)) => Err(e),
            },
            DimExpr::Sub(a, b) => match (a.eval_spec(m), b.eval_spec(m)) {
                (Ok(x), Ok(y)) => if i64::MIN <= x - y <= i64::MAX {
                    Ok((x - y) as i64)
                } else {
                    Err(DimError::Overflow)
                },
                (Err(e), _) => Err(e),
                (_, Err(e)) => Err(e),
            },
            DimExpr::Mul(a, b) => match (a.eval_spec(m), b.eval_spec(m)) {
                (Ok(x), Ok(y)) => if i64::MIN <= x * y <= i64::MAX {
                    Ok((x * y) as i64)
                } else {
                    Err(DimError::Overflow)
                },
                (Err(e), _) => Err(e),
                (_, Err(e)) => Err(e),
            },
        }
    }

    /// Evaluates the expression under the bindings of `table`.
    pub fn eval(&self, table: &SymbolTable) -> (r: Result<i64, DimError>)
        ensures
            r == self.eval_spec(table@),
        decreases *self,
    {
        match self {
            DimExpr::Val(v) => Ok(*v),
            DimExpr::Sym(c) => match table.get(*c) {
                Some(v) => Ok(v),
                None => Err(DimError::Unresolved { symbol: *c }),
            },
            DimExpr::Add(a, b) => {
                let x = match a.eval(table) {
                    Ok(x) => x,
                    Err(e) => {
                        return Err(e);
                    },
                };
                let y = match b.eval(table) {
                    Ok(y) => y,
                    Err(e) => {
                        return Err(e);
                    },
                };
                match x.checked_add(y) {
                    Some(v) => Ok(v),
                    None => Err(DimError::Overflow),
                }
            },
            DimExpr::Sub(a, b) => {
                let x = match a.eval(table) {
                    Ok(x) => x,
                    Err(e) => {
                        return Err(e);
                    },
                };
                let y = match b.eval(table) {
                    Ok(y) => y,
                    Err(e) => {
                        return Err(e);
                    },
                };
                match x.checked_sub(y) {
                    Some(v) => Ok(v),
                    None => Err(DimError::Overflow),
                }
            },
            DimExpr::Mul(a, b) => {
                let x = match a.eval(table) {
                    Ok(x) => x,
                    Err(e) => {
                        return Err(e);
                    },
                };
                let y = match b.eval(table) {
                    Ok(y) => y,
                    Err(e) => {
                        return Err(e);
                    },
                };
                match x.checked_mul(y) {
                    Some(v) => Ok(v),
                    None => Err(DimError::Overflow),
                }
            },
        }
    }
}

/// What resolving an expression to a tensor size yields: the evaluated
/// value when it is a representable non-negative count, or the exact error.
pub open spec fn resolved_size_spec(e: DimExpr, m: Map<char, i64>) -> Result<usize, RunError> {
    match e.eval_spec(m) {
        Ok(v) => if v < 0 {
            Err(RunError::ShapeComputation { problem: ShapeProblem::Negative { value: v } })
        } else if v > usize::MAX {
            Err(RunError::ShapeComputation { problem: ShapeProblem::TooLarge })
        } else {
            Ok(v as usize)
        },
        Err(DimError::Unresolved { symbol }) => Err(RunError::UnresolvedSymbol { symbol }),
        Err(DimError::Overflow) => Err(
            RunError::ShapeComputation { problem: ShapeProblem::Arithmetic },
        ),
    }
}

/// Resolves a dimension expression to a concrete size: evaluation must
/// succeed and yield a non-negative value that fits the machine.
pub fn resolve_size(e: &DimExpr, table: &SymbolTable) -> (r: Result<usize, RunError>)
    ensures
        r == resolved_size_spec(*e, table@),
{
    match e.eval(table) {
        Ok(v) => {
            if v < 0 {
                Err(RunError::ShapeComputation { problem: ShapeProblem::Negative { value: v } })
            } else if v as u64 > usize::MAX as u64 {
                Err(RunError::ShapeComputation { problem: ShapeProblem::TooLarge })
            } else {
                Ok(v as usize)
            }
        },
        Err(DimError::Unresolved { symbol }) => Err(RunError::UnresolvedSymbol { symbol }),
        Err(DimError::Overflow) => Err(
            RunError::ShapeComputation { problem: ShapeProblem::Arithmetic },
        ),
    }
}

/// A symbol bound to `v` resolves to exactly `v`: binding feeds shape
/// evaluation, whatever else the table holds for other symbols.
pub proof fn lemma_bound_symbol_evaluates(m: Map<char, i64>, c: char, v: i64)
    ensures
        DimExpr::Sym(c).eval_spec(m.insert(c, v)) == Ok::<i64, DimError>(v),
{
}

/// Once an assignment token is accepted, every later shape evaluation that
/// references its symbol uses exactly the value the token bound.
pub proof fn lemma_accepted_binding_evaluates(s: Seq<char>, m: Map<char, i64>)
    requires
        crate::symbols::valid_binding(s),
    ensures
        ({
            let (c, v) = crate::symbols::parsed_binding(s);
            DimExpr::Sym(c).eval_spec(m.insert(c, v)) == Ok::<i64, DimError>(v)
        }),
{
    let (c, v) = crate::symbols::parsed_binding(s);
    lemma_bound_symbol_evaluates(m, c, v);
}

} // verus!
