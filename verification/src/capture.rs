//! Instrumentation decisions layered over plan execution: the naming
//! scheme for capture-archive entries, which element types are archived,
//! and the sanity scan that spots non-finite 32-bit floating patterns in a
//! produced output.

use vstd::prelude::*;

use crate::errors::RunError;

verus! {

/// Element type of a produced tensor, as far as the capture archive cares:
/// the recognized numeric types are archived, anything else is skipped
/// with a warning.
#[derive(Debug, Clone, Copy, PartialEq, Eq, Structural)]
pub enum DatumKind {
    Float32,
    Float64,
    Int8,
    Int32,
    UInt8,
    QInt8,
    QUInt8,
    QInt32,
    Other,
}

pub open spec fn archivable_spec(k: DatumKind) -> bool {
    !(k is Other)
}

/// Is a produced value of this element type written to the archive?
pub fn archivable(k: DatumKind) -> (r: bool)
    ensures
        r == archivable_spec(k),
{
    match k {
        DatumKind::Other => false,
        _ => true,
    }
}

pub open spec fn digit_char(d: int) -> char {
    if d == 0 {
        '0'
    } else if d == 1 {
        '1'
    } else if d == 2 {
        '2'
    } else if d == 3 {
        '3'
    } else if d == 4 {
        '4'
    } else if d == 5 {
        '5'
    } else if d == 6 {
        '6'
    } else if d == 7 {
        '7'
    } else if d == 8 {
        '8'
    } else {
        '9'
    }
}

/// Decimal digits of `n`, most significant first.
pub open spec fn dec_chars(n: int) -> Seq<char>
    decreases n,
{
    if n < 10 {
        seq![digit_char(n)]
    } else {
        dec_chars(n / 10).push(digit_char(n % 10))
    }
}

fn digit_str(d: usize) -> (r: &'static str)
    requires
        d < 10,
    ensures
        r@ == seq![digit_char(d as int)],
{
    proof {
        reveal_strlit("0");
        reveal_strlit("1");
        reveal_strlit("2");
        reveal_strlit("3");
        reveal_strlit("4");
        reveal_strlit("5");
        reveal_strlit("6");
        reveal_strlit("7");
        reveal_strlit("8");
        reveal_strlit("9");
    }
    let r: &'static str = match d {
        0 => "0",
        1 => "1",
        2 => "2",
        3 => "3",
        4 => "4",
        5 => "5",
        6 => "6",
        7 => "7",
        8 => "8",
        _ => "9",
    };
    proof {
        assert(r@ =~= seq![digit_char(d as int)]);
    }
    r
}

/// Appends the decimal form of `n`.
fn push_dec(out: &mut String, n: usize)
    ensures
        final(out)@ == old(out)@ + dec_chars(n as int),
    decreases n,
{
    if n >= 10 {
        push_dec(out, n / 10);
        let d = digit_str(n % 10);
        out.append(d);
        proof {
            assert(final(out)@ =~= old(out)@ + dec_chars(n as int));
        }
    } else {
        let d = digit_str(n);
        out.append(d);
        proof {
            assert(final(out)@ =~= old(out)@ + dec_chars(n as int));
        }
    }
}

/// The prefix a turn index adds to every key when more than one turn runs.
pub open spec fn turn_prefix_spec(turn: int, multiturn: bool) -> Seq<char> {
    if multiturn {
        seq!['t', 'u', 'r', 'n', '_'] + dec_chars(turn) + seq!['/']
    } else {
        Seq::<char>::empty()
    }
}

/// The archive key of output `output_ix` of node `name` in turn `turn`:
/// the bare node name for output zero, `name:ix` for later outputs, and a
/// `turn_T/` prefix when several turns run.
pub open spec fn archive_key_spec(
    name: Seq<char>,
    output_ix: int,
    turn: int,
    multiturn: bool,
) -> Seq<char> {
    turn_prefix_spec(turn, multiturn) + name + (if output_ix > 0 {
        seq![':'] + dec_chars(output_ix)
    } else {
        Seq::<char>::empty()
    })
}

/// Builds the archive key for one produced output.
pub fn archive_key(name: &str, output_ix: usize, turn: usize, multiturn: bool) -> (r: String)
    ensures
        r@ == archive_key_spec(name@, output_ix as int, turn as int, multiturn),
{
    proof {
        reveal_strlit("turn_");
        reveal_strlit("/");
        reveal_strlit(":");
    }
    let mut out = String::new();
    if multiturn {
        out.append("turn_");
        push_dec(&mut out, turn);
        out.append("/");
    }
    out.append(name);
    if output_ix > 0 {
        out.append(":");
        push_dec(&mut out, output_ix);
    }
    proof {
        assert(out@ =~= archive_key_spec(name@, output_ix as int, turn as int, multiturn));
    }
    out
}

/// The archive keys for all outputs of one node, in output order: a key
/// for each archivable element type, a skip for the others.
pub fn capture_keys(name: &str, kinds: &Vec<DatumKind>, turn: usize, multiturn: bool) -> (r: Vec<
    Option<String>,
>)
    ensures
        r@.len() == kinds@.len(),
        forall|i: int|
            0 <= i < kinds@.len() ==> match #[trigger] r@[i] {
                Some(key) => archivable_spec(kinds@[i]) && key@ == archive_key_spec(
                    name@,
                    i,
                    turn as int,
                    multiturn,
                ),
                None => !archivable_spec(kinds@[i]),
            },
{
    let mut r: Vec<Option<String>> = Vec::new();
    let mut i: usize = 0;
    while i < kinds.len()
        invariant
            i <= kinds@.len(),
            r@.len() == i,
            forall|t: int|
                0 <= t < i ==> match #[trigger] r@[t] {
                    Some(key) => archivable_spec(kinds@[t]) && key@ == archive_key_spec(
                        name@,
                        t,
                        turn as int,
                        multiturn,
                    ),
                    None => !archivable_spec(kinds@[t]),
                },
        decreases kinds@.len() - i,
    {
        if archivable(kinds[i]) {
            r.push(Some(archive_key(name, i, turn, multiturn)));
        } else {
            r.push(None);
        }
        i = i + 1;
    }
    r
}

/// Is this 32-bit floating pattern finite? The pattern is non-finite (an
/// infinity or a quiet/signalling not-a-number) exactly when its exponent
/// bits are all ones.
pub open spec fn finite_bits32(b: u32) -> bool {
    b & 0x7f80_0000u32 != 0x7f80_0000u32
}

/// First position holding a non-finite 32-bit floating pattern, if any.
pub fn first_non_finite(data: &Vec<u32>) -> (r: Option<usize>)
    ensures
        match r {
            Some(i) => i < data@.len() && !finite_bits32(data@[i as int]) && forall|t: int|
                0 <= t < i ==> finite_bits32(#[trigger] data@[t]),
            None => forall|t: int| 0 <= t < data@.len() ==> finite_bits32(#[trigger] data@[t]),
        },
{
    let mut i: usize = 0;
    while i < data.len()
        invariant
            i <= data@.len(),
            forall|t: int| 0 <= t < i ==> finite_bits32(#[trigger] data@[t]),
        decreases data@.len() - i,
    {
        if (data[i] & 0x7f80_0000u32) == 0x7f80_0000u32 {
            return Some(i);
        }
        i = i + 1;
    }
    None
}

/// Scans one 32-bit floating output for a non-finite value. Fails, naming
/// the node, the output index, the position and the offending pattern,
/// exactly when one is present; the first one is reported.
pub fn sanity_check(node: &str, output_index: usize, data: &Vec<u32>) -> (r: Result<(), RunError>)
    ensures
        match r {
            Ok(()) => forall|t: int| 0 <= t < data@.len() ==> finite_bits32(#[trigger] data@[t]),
            Err(e) => {
                &&& (e matches RunError::SanityViolation { node: n, output_index: oi, position, bits }
                    && n@ == node@ && oi == output_index && position < data@.len()
                    && bits == data@[position as int] && !finite_bits32(bits)
                    && (forall|t: int| 0 <= t < position ==> finite_bits32(#[trigger] data@[t])))
            },
        },
{
    match first_non_finite(data) {
        Some(position) => Err(
            RunError::SanityViolation {
                node: node.to_owned(),
                output_index,
                position,
                bits: data[position],
            },
        ),
        None => Ok(()),
    }
}

} // verus!
