use model_runner::capture::{
    archivable, archive_key, capture_keys, first_non_finite, sanity_check, DatumKind,
};
use model_runner::dims::{resolve_size, DimError, DimExpr};
use model_runner::div_ceil;
use model_runner::errors::{RunError, ShapeProblem};
use model_runner::pulse::{PulsedSession, StreamFact};
use model_runner::symbols::{parse_binding, SymbolTable};
use model_runner::tensor::Tensor;

fn sym(c: char) -> DimExpr {
    DimExpr::Sym(c)
}

fn val(v: i64) -> DimExpr {
    DimExpr::Val(v)
}

fn tensor(dims: Vec<usize>, data: Vec<u32>) -> Tensor {
    Tensor::from_parts(dims, data).expect("well-formed tensor")
}

// ---- symbol binding -------------------------------------------------------

#[test]
fn binding_simple() {
    assert_eq!(parse_binding("S=12"), Ok(('S', 12)));
}

#[test]
fn binding_negative_and_plus() {
    assert_eq!(parse_binding("x=-5"), Ok(('x', -5)));
    assert_eq!(parse_binding("x=+7"), Ok(('x', 7)));
}

#[test]
fn binding_limits() {
    assert_eq!(parse_binding("S=9223372036854775807"), Ok(('S', i64::MAX)));
    assert_eq!(parse_binding("S=-9223372036854775808"), Ok(('S', i64::MIN)));
    assert!(parse_binding("S=9223372036854775808").is_err());
    assert!(parse_binding("S=99999999999999999999999").is_err());
}

#[test]
fn binding_malformed() {
    for bad in ["S12", "=5", "S=", "S=ab", "S=1x", "S=-", "S=+", ""] {
        match parse_binding(bad) {
            Err(RunError::BindingSyntax { token }) => assert_eq!(token, bad),
            other => panic!("expected a syntax error for {:?}, got {:?}", bad, other),
        }
    }
}

#[test]
fn binding_takes_first_character_of_longer_identifier() {
    assert_eq!(parse_binding("AB=3"), Ok(('A', 3)));
}

#[test]
fn binding_splits_at_first_equals() {
    // the right side `1=2` is not numeric, so the token is rejected
    assert!(parse_binding("S=1=2").is_err());
}

#[test]
fn table_last_write_wins() {
    let mut t = SymbolTable::new();
    t.bind('S', 3);
    t.bind('S', 9);
    assert_eq!(t.get('S'), Some(9));
    assert_eq!(t.get('T'), None);
}

#[test]
fn assignments_applied_in_order() {
    let mut t = SymbolTable::new();
    let tokens = vec!["S=4".to_string(), "B=2".to_string(), "S=6".to_string()];
    assert!(t.apply_assignments(&tokens).is_ok());
    assert_eq!(t.get('S'), Some(6));
    assert_eq!(t.get('B'), Some(2));
}

#[test]
fn bad_assignment_leaves_table_untouched() {
    let mut t = SymbolTable::new();
    t.bind('S', 4);
    let tokens = vec!["B=2".to_string(), "oops".to_string()];
    match t.apply_assignments(&tokens) {
        Err(RunError::BindingSyntax { token }) => assert_eq!(token, "oops"),
        other => panic!("expected a syntax error, got {:?}", other),
    }
    // the earlier good token was not applied either
    assert_eq!(t.get('B'), None);
    assert_eq!(t.get('S'), Some(4));
}

// ---- dimension expressions ------------------------------------------------

#[test]
fn bound_symbol_is_used_by_evaluation() {
    let mut t = SymbolTable::new();
    t.bind('S', 5);
    let e = DimExpr::Add(
        Box::new(DimExpr::Mul(Box::new(sym('S')), Box::new(val(2)))),
        Box::new(val(1)),
    );
    assert_eq!(e.eval(&t), Ok(11));
    assert_eq!(resolve_size(&e, &t), Ok(11usize));
}

#[test]
fn unresolved_symbol_is_reported() {
    let t = SymbolTable::new();
    assert_eq!(sym('T').eval(&t), Err(DimError::Unresolved { symbol: 'T' }));
    assert_eq!(
        resolve_size(&sym('T'), &t),
        Err(RunError::UnresolvedSymbol { symbol: 'T' })
    );
}

#[test]
fn negative_size_is_reported() {
    let t = SymbolTable::new();
    let e = DimExpr::Sub(Box::new(val(0)), Box::new(val(5)));
    assert_eq!(
        resolve_size(&e, &t),
        Err(RunError::ShapeComputation {
            problem: ShapeProblem::Negative { value: -5 }
        })
    );
}

#[test]
fn overflowing_expression_is_reported() {
    let t = SymbolTable::new();
    let e = DimExpr::Mul(Box::new(val(i64::MAX)), Box::new(val(2)));
    assert_eq!(e.eval(&t), Err(DimError::Overflow));
}

// ---- tensors --------------------------------------------------------------

#[test]
fn ceiling_division() {
    assert_eq!(div_ceil(10, 4), 3);
    assert_eq!(div_ceil(8, 4), 2);
    assert_eq!(div_ceil(0, 4), 0);
    assert_eq!(div_ceil(1, 4), 1);
}

#[test]
fn from_parts_rejects_wrong_length() {
    assert!(Tensor::from_parts(vec![2, 3], vec![0; 5]).is_none());
    assert!(Tensor::from_parts(vec![2, 3], vec![0; 6]).is_some());
}

#[test]
fn chunk_slices_and_pads() {
    // 2 x 5, rows 1..=5 and 6..=10
    let t = tensor(vec![2, 5], vec![1, 2, 3, 4, 5, 6, 7, 8, 9, 10]);
    let c = t.chunk_axis(1, 2, 4);
    assert_eq!(c.dims, vec![2, 4]);
    assert_eq!(c.data, vec![3, 4, 5, 0, 8, 9, 10, 0]);
    let inside = t.chunk_axis(1, 1, 3);
    assert_eq!(inside.data, vec![2, 3, 4, 7, 8, 9]);
}

#[test]
fn chunk_along_leading_axis() {
    let t = tensor(vec![3, 2], vec![1, 2, 3, 4, 5, 6]);
    let c = t.chunk_axis(0, 2, 2);
    assert_eq!(c.dims, vec![2, 2]);
    assert_eq!(c.data, vec![5, 6, 0, 0]);
}

#[test]
fn write_places_a_chunk() {
    let mut buf = Tensor::filled(vec![1, 6], 0).unwrap();
    let chunk = tensor(vec![1, 2], vec![9, 8]);
    buf.write_axis(1, 2, &chunk);
    assert_eq!(buf.data, vec![0, 0, 9, 8, 0, 0]);
}

// ---- pulsed streaming -----------------------------------------------------

fn stream_fact_1d(pulse: usize, delay: usize) -> StreamFact {
    StreamFact {
        axis: 0,
        pulse,
        delay,
        dim: sym('S'),
        shape: vec![sym('S')],
    }
}

#[test]
fn pulse_example_walkthrough() {
    // pulse 4, delay 2, input length 10
    let input = tensor(vec![10], (1..=10u32).collect());
    let fact = stream_fact_1d(4, 2);
    let mut s = PulsedSession::new(input, 0, 4, &fact, 'S').unwrap();
    assert_eq!(s.n_pulses, 3); // ceil(10 / 4)
    assert_eq!(s.output_dim, 10);
    assert_eq!(s.buffer.dims, vec![10 + 2 + 16]); // output_dim + delay + 4 * pulse

    let mut fed: Vec<Vec<u32>> = Vec::new();
    while !s.done() {
        let chunk = s.next_chunk();
        assert_eq!(chunk.dims, vec![4]); // every chunk has exactly pulse length
        fed.push(chunk.data.clone());
        // a stand-in evaluator: the identity on each chunk
        s.push_result(&chunk).unwrap();
    }
    assert_eq!(
        fed,
        vec![
            vec![1, 2, 3, 4],
            vec![5, 6, 7, 8],
            vec![9, 10, 0, 0], // final chunk zero-padded past the input
        ]
    );
    let out = s.finish();
    assert_eq!(out.dims, vec![10]);
    // the first `delay` positions are discarded, then length is `output_dim`
    assert_eq!(out.data, vec![3, 4, 5, 6, 7, 8, 9, 10, 0, 0]);
}

#[test]
fn pulse_count_on_exact_multiple() {
    let input = tensor(vec![8], (1..=8u32).collect());
    let fact = stream_fact_1d(4, 0);
    let mut s = PulsedSession::new(input, 0, 4, &fact, 'S').unwrap();
    assert_eq!(s.n_pulses, 2);
    while !s.done() {
        let chunk = s.next_chunk();
        assert_eq!(chunk.data.iter().filter(|&&v| v == 0).count(), 0); // no padding
        s.push_result(&chunk).unwrap();
    }
    let out = s.finish();
    assert_eq!(out.data, (1..=8u32).collect::<Vec<u32>>());
}

#[test]
fn pulse_empty_input() {
    let input = tensor(vec![0], vec![]);
    let fact = stream_fact_1d(4, 2);
    let s = PulsedSession::new(input, 0, 4, &fact, 'S').unwrap();
    assert_eq!(s.n_pulses, 0);
    assert_eq!(s.output_dim, 0);
    let out = s.finish();
    assert_eq!(out.dims, vec![0]);
    assert!(out.data.is_empty());
}

#[test]
fn pulse_multi_axis() {
    // 2 x 6, streaming along axis 1 with pulse 4: one padded final chunk
    let input = tensor(
        vec![2, 6],
        vec![1, 2, 3, 4, 5, 6, 11, 12, 13, 14, 15, 16],
    );
    let fact = StreamFact {
        axis: 1,
        pulse: 4,
        delay: 0,
        dim: sym('S'),
        shape: vec![val(2), sym('S')],
    };
    let mut s = PulsedSession::new(input, 1, 4, &fact, 'S').unwrap();
    assert_eq!(s.n_pulses, 2);
    while !s.done() {
        let chunk = s.next_chunk();
        s.push_result(&chunk).unwrap();
    }
    let out = s.finish();
    assert_eq!(out.dims, vec![2, 6]);
    assert_eq!(out.data, vec![1, 2, 3, 4, 5, 6, 11, 12, 13, 14, 15, 16]);
}

#[test]
fn pulse_unresolved_output_dim() {
    let input = tensor(vec![4], vec![1, 2, 3, 4]);
    let fact = StreamFact {
        axis: 0,
        pulse: 4,
        delay: 0,
        dim: sym('T'), // not the stream symbol
        shape: vec![sym('S')],
    };
    match PulsedSession::new(input, 0, 4, &fact, 'S') {
        Err(RunError::UnresolvedSymbol { symbol }) => assert_eq!(symbol, 'T'),
        other => panic!("expected an unresolved symbol, got {:?}", other.map(|_| ())),
    }
}

#[test]
fn pulse_negative_output_dim() {
    let input = tensor(vec![4], vec![1, 2, 3, 4]);
    let fact = StreamFact {
        axis: 0,
        pulse: 4,
        delay: 0,
        dim: DimExpr::Sub(Box::new(sym('S')), Box::new(val(100))),
        shape: vec![sym('S')],
    };
    match PulsedSession::new(input, 0, 4, &fact, 'S') {
        Err(RunError::ShapeComputation {
            problem: ShapeProblem::Negative { value },
        }) => assert_eq!(value, -96),
        other => panic!("expected a negative size, got {:?}", other.map(|_| ())),
    }
}

#[test]
fn resolve_arithmetic_overflow_is_shape_error() {
    let t = SymbolTable::new();
    let e = DimExpr::Mul(Box::new(val(i64::MAX)), Box::new(val(2)));
    assert_eq!(
        resolve_size(&e, &t),
        Err(RunError::ShapeComputation {
            problem: ShapeProblem::Arithmetic
        })
    );
}

#[test]
fn pulse_buffer_too_large_for_machine() {
    let input = tensor(vec![4], vec![1, 2, 3, 4]);
    let fact = StreamFact {
        axis: 0,
        pulse: 4,
        delay: 0,
        dim: sym('S'),
        shape: vec![sym('S'), val(i64::MAX)],
    };
    match PulsedSession::new(input, 0, 4, &fact, 'S') {
        Err(RunError::ShapeComputation {
            problem: ShapeProblem::TooLarge,
        }) => {}
        other => panic!("expected a too-large shape, got {:?}", other.map(|_| ())),
    }
}

#[test]
fn pulse_rejects_misshapen_result_chunk() {
    let input = tensor(vec![8], (1..=8u32).collect());
    let fact = stream_fact_1d(4, 0);
    let mut s = PulsedSession::new(input, 0, 4, &fact, 'S').unwrap();
    let bad = tensor(vec![3], vec![7, 7, 7]);
    match s.push_result(&bad) {
        Err(RunError::Evaluation { .. }) => {}
        other => panic!("expected an evaluation error, got {:?}", other),
    }
    assert_eq!(s.next_ix, 0); // nothing advanced, nothing written
    assert!(s.buffer.data.iter().all(|&v| v == 0));
}

#[test]
fn sanity_disabled_run_returns_non_finite_output() {
    // with no sanity scan in the loop, non-finite patterns flow through
    let nan = f32::NAN.to_bits();
    let input = tensor(vec![2], vec![nan, 3]);
    let fact = stream_fact_1d(2, 0);
    let mut s = PulsedSession::new(input, 0, 2, &fact, 'S').unwrap();
    while !s.done() {
        let chunk = s.next_chunk();
        s.push_result(&chunk).unwrap();
    }
    let out = s.finish();
    assert_eq!(out.data, vec![nan, 3]);
}

// ---- capture naming and the sanity scan -----------------------------------

#[test]
fn archive_key_single_turn() {
    assert_eq!(archive_key("conv", 0, 0, false), "conv");
    assert_eq!(archive_key("conv", 2, 0, false), "conv:2");
}

#[test]
fn archive_key_multi_turn() {
    assert_eq!(archive_key("conv", 0, 0, true), "turn_0/conv");
    assert_eq!(archive_key("conv", 0, 1, true), "turn_1/conv");
    assert_eq!(archive_key("conv", 3, 12, true), "turn_12/conv:3");
}

#[test]
fn capture_skips_unsupported_kinds() {
    assert!(archivable(DatumKind::Float32));
    assert!(archivable(DatumKind::QInt32));
    assert!(!archivable(DatumKind::Other));
    let kinds = vec![DatumKind::Float32, DatumKind::Other, DatumKind::Int8];
    let keys = capture_keys("n", &kinds, 0, false);
    assert_eq!(
        keys,
        vec![Some("n".to_string()), None, Some("n:2".to_string())]
    );
}

#[test]
fn sanity_scan_finds_first_non_finite() {
    let data = vec![
        1.0f32.to_bits(),
        f32::INFINITY.to_bits(),
        f32::NAN.to_bits(),
    ];
    assert_eq!(first_non_finite(&data), Some(1));
    match sanity_check("relu", 0, &data) {
        Err(RunError::SanityViolation {
            node,
            output_index,
            position,
            bits,
        }) => {
            assert_eq!(node, "relu");
            assert_eq!(output_index, 0);
            assert_eq!(position, 1);
            assert_eq!(bits, f32::INFINITY.to_bits());
        }
        other => panic!("expected a sanity violation, got {:?}", other),
    }
}

#[test]
fn sanity_scan_passes_finite_data() {
    let data = vec![0.0f32.to_bits(), (-2.5f32).to_bits(), f32::MAX.to_bits()];
    assert_eq!(first_non_finite(&data), None);
    assert!(sanity_check("relu", 0, &data).is_ok());
}
