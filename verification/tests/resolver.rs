//! The axis-size resolver: memoized values, reference chains, cycles,
//! dangling references and duplicate declarations.

use bioimg::axis_size::AnyAxisSize;
use bioimg::axis_size::AxisId;
use bioimg::axis_size::AxisSizeReference;
use bioimg::axis_size::ParameterizedAxisSize;
use bioimg::axis_size::QualifiedAxisId;
use bioimg::axis_size::ResolvedAxisSize;
use bioimg::axis_size::TensorId;
use bioimg::axis_size_resolver::AxisSizeResolutionError;
use bioimg::axis_size_resolver::ResolvedSizeMap;
use bioimg::axis_size_resolver::SlotResolver;

fn expect_new_err(
    r: Result<SlotResolver, AxisSizeResolutionError>,
) -> AxisSizeResolutionError {
    match r {
        Err(e) => e,
        Ok(_) => panic!("expected construction to fail"),
    }
}

fn expect_solve_err(
    r: Result<ResolvedSizeMap, AxisSizeResolutionError>,
) -> AxisSizeResolutionError {
    match r {
        Err(e) => e,
        Ok(_) => panic!("expected resolution to fail"),
    }
}

fn qid(tensor: &str, axis: &str) -> QualifiedAxisId {
    QualifiedAxisId {
        tensor_id: TensorId::new(tensor.to_owned()),
        axis_id: AxisId::new(axis.to_owned()),
    }
}

fn reference(tensor: &str, axis: &str) -> AnyAxisSize {
    AnyAxisSize::Reference(AxisSizeReference { qualified_axis_id: qid(tensor, axis), offset: 0 })
}

#[test]
fn fixed_entry_resolves_to_itself() {
    let resolver = SlotResolver::new(vec![(qid("x", "a"), AnyAxisSize::Fixed(7))]).unwrap();
    let map = resolver.solve().unwrap();
    assert_eq!(map.get(&qid("x", "a")), Some(&ResolvedAxisSize::Fixed(7)));
}

#[test]
fn parameterized_entry_resolves_to_itself() {
    let size = ParameterizedAxisSize { min: 2, step: 3 };
    let resolver = SlotResolver::new(
        vec![(qid("x", "a"), AnyAxisSize::Parameterized(size))],
    ).unwrap();
    let map = resolver.solve().unwrap();
    assert_eq!(map.get(&qid("x", "a")), Some(&ResolvedAxisSize::Parameterized(size)));
}

#[test]
fn reference_takes_target_value() {
    let resolver = SlotResolver::new(vec![
        (qid("x", "a"), AnyAxisSize::Fixed(4)),
        (qid("y", "b"), reference("x", "a")),
    ]).unwrap();
    let map = resolver.solve().unwrap();
    assert_eq!(map.get(&qid("y", "b")), Some(&ResolvedAxisSize::Fixed(4)));
}

#[test]
fn chained_references_resolve_transitively() {
    // C references B, B references A: C takes A's resolved value.
    let resolver = SlotResolver::new(vec![
        (qid("a", "i"), AnyAxisSize::Fixed(9)),
        (qid("b", "i"), reference("a", "i")),
        (qid("c", "i"), reference("b", "i")),
    ]).unwrap();
    let map = resolver.solve().unwrap();
    assert_eq!(map.get(&qid("c", "i")), Some(&ResolvedAxisSize::Fixed(9)));
    assert_eq!(map.get(&qid("b", "i")), Some(&ResolvedAxisSize::Fixed(9)));
}

#[test]
fn repeated_solves_agree() {
    let build = || {
        SlotResolver::new(vec![
            (qid("a", "i"), AnyAxisSize::Fixed(9)),
            (qid("b", "i"), reference("a", "i")),
            (qid("c", "i"), reference("b", "i")),
            (qid("d", "j"), AnyAxisSize::Parameterized(ParameterizedAxisSize { min: 1, step: 2 })),
        ]).unwrap()
    };
    let first = build().solve().unwrap();
    let second = build().solve().unwrap();
    assert_eq!(first.entries.len(), second.entries.len());
    for (id, value) in &first.entries {
        assert_eq!(second.get(id), Some(value));
    }
}

#[test]
fn two_element_cycle_fails_with_loop() {
    let resolver = SlotResolver::new(vec![
        (qid("a", "i"), reference("b", "i")),
        (qid("b", "i"), reference("a", "i")),
    ]).unwrap();
    let err = expect_solve_err(resolver.solve());
    assert!(matches!(err, AxisSizeResolutionError::Loop(_)));
}

#[test]
fn self_reference_fails_with_loop() {
    let resolver = SlotResolver::new(vec![(qid("a", "i"), reference("a", "i"))]).unwrap();
    let err = expect_solve_err(resolver.solve());
    assert!(matches!(
        err,
        AxisSizeResolutionError::Loop(id) if id.tensor_id.0 == "a" && id.axis_id.0 == "i"
    ));
}

#[test]
fn dangling_reference_fails_with_unresolvable() {
    let resolver = SlotResolver::new(
        vec![(qid("b", "i"), reference("missing", "i"))],
    ).unwrap();
    let err = expect_solve_err(resolver.solve());
    match err {
        AxisSizeResolutionError::Unresolvable { visited } => {
            // The reported chain starts at the id that asked for the
            // never-declared target.
            assert!(visited.iter().any(|v| v.tensor_id.0 == "b" && v.axis_id.0 == "i"));
        },
        other => panic!("expected an unresolvable chain, got {:?}", describe(&other)),
    }
}

#[test]
fn duplicate_fixed_ids_are_rejected() {
    let err = expect_new_err(SlotResolver::new(vec![
        (qid("x", "a"), AnyAxisSize::Fixed(1)),
        (qid("x", "a"), AnyAxisSize::Fixed(2)),
    ]));
    assert!(matches!(
        err,
        AxisSizeResolutionError::DuplicateId(id) if id.tensor_id.0 == "x" && id.axis_id.0 == "a"
    ));
}

#[test]
fn duplicate_reference_ids_are_rejected() {
    let err = expect_new_err(SlotResolver::new(vec![
        (qid("x", "a"), reference("y", "b")),
        (qid("x", "a"), reference("z", "c")),
    ]));
    assert!(matches!(err, AxisSizeResolutionError::DuplicateId(_)));
}

#[test]
fn mixed_duplicate_ids_are_rejected() {
    let err = expect_new_err(SlotResolver::new(vec![
        (qid("x", "a"), AnyAxisSize::Fixed(1)),
        (qid("x", "a"), reference("y", "b")),
    ]));
    assert!(matches!(err, AxisSizeResolutionError::DuplicateId(_)));
}

#[test]
fn repeated_cycle_failures_blame_the_same_id() {
    let build = || {
        SlotResolver::new(vec![
            (qid("a", "i"), AnyAxisSize::Fixed(1)),
            (qid("b", "i"), reference("c", "i")),
            (qid("c", "i"), reference("b", "i")),
        ]).unwrap()
    };
    let first = expect_solve_err(build().solve());
    let second = expect_solve_err(build().solve());
    match (first, second) {
        (AxisSizeResolutionError::Loop(x), AxisSizeResolutionError::Loop(y)) => {
            assert_eq!(x.tensor_id.0, y.tensor_id.0);
            assert_eq!(x.axis_id.0, y.axis_id.0);
        },
        _ => panic!("both runs should report the same cycle"),
    }
}

#[test]
fn repeated_dangling_failures_show_the_same_chain() {
    let build = || {
        SlotResolver::new(vec![
            (qid("a", "i"), reference("b", "i")),
            (qid("b", "i"), reference("missing", "i")),
        ]).unwrap()
    };
    let first = expect_solve_err(build().solve());
    let second = expect_solve_err(build().solve());
    match (first, second) {
        (
            AxisSizeResolutionError::Unresolvable { visited: v1 },
            AxisSizeResolutionError::Unresolvable { visited: v2 },
        ) => {
            assert_eq!(v1.len(), v2.len());
            for (x, y) in v1.iter().zip(v2.iter()) {
                assert_eq!(x.tensor_id.0, y.tensor_id.0);
                assert_eq!(x.axis_id.0, y.axis_id.0);
            }
        },
        _ => panic!("both runs should report the same dangling chain"),
    }
}

fn describe(err: &AxisSizeResolutionError) -> &'static str {
    match err {
        AxisSizeResolutionError::Loop(_) => "Loop",
        AxisSizeResolutionError::Unresolvable { .. } => "Unresolvable",
        AxisSizeResolutionError::DuplicateId(_) => "DuplicateId",
        AxisSizeResolutionError::ParameterizedNotAllowed => "ParameterizedNotAllowed",
    }
}
