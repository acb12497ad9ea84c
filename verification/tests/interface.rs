//! End-to-end validation of model interfaces: compatibility of resolved
//! sizes with sample shapes, duplicate tensor ids, and processing-step
//! tensor references.

use bioimg::axes::InputAxis;
use bioimg::axes::InputAxisGroup;
use bioimg::axes::OutputAxis;
use bioimg::axes::OutputAxisGroup;
use bioimg::axes::SpaceInputAxis;
use bioimg::axes::SpaceOutputAxis;
use bioimg::axes::OutputSpacetimeSize;
use bioimg::axis_size::AnyAxisSize;
use bioimg::axis_size::AxisId;
use bioimg::axis_size::AxisSizeReference;
use bioimg::axis_size::ParameterizedAxisSize;
use bioimg::axis_size::QualifiedAxisId;
use bioimg::axis_size::ResolvedAxisSize;
use bioimg::axis_size::TensorId;
use bioimg::axis_size_resolver::ResolvedAxisSizeExt;
use bioimg::model_interface::InputSlot;
use bioimg::model_interface::InputTensorMetadata;
use bioimg::model_interface::ModelInterface;
use bioimg::model_interface::OutputSlot;
use bioimg::model_interface::OutputTensorMetadata;
use bioimg::model_interface::SampleTensor;
use bioimg::model_interface::TensorValidationError;
use bioimg::axes::BatchAxis;
use bioimg::preprocessing::PostprocessingDescr;
use bioimg::preprocessing::PreprocessingDescr;
use bioimg::preprocessing::ScaleMeanVarianceDescr;
use bioimg::preprocessing::ScaleRangeDescr;

fn expect_err(
    r: Result<ModelInterface, TensorValidationError>,
) -> TensorValidationError {
    match r {
        Err(e) => e,
        Ok(_) => panic!("expected validation to fail"),
    }
}

fn qid(tensor: &str, axis: &str) -> QualifiedAxisId {
    QualifiedAxisId {
        tensor_id: TensorId::new(tensor.to_owned()),
        axis_id: AxisId::new(axis.to_owned()),
    }
}

fn input_space_axis(id: &str, size: AnyAxisSize) -> InputAxis {
    InputAxis::Space(SpaceInputAxis { id: AxisId::new(id.to_owned()), description: String::new(), size })
}

fn output_space_axis(id: &str, size: AnyAxisSize) -> OutputAxis {
    OutputAxis::Space(SpaceOutputAxis {
        id: AxisId::new(id.to_owned()),
        description: String::new(),
        size: OutputSpacetimeSize { size, halo: None },
    })
}

fn input_slot(id: &str, axes: Vec<InputAxis>, shape: Vec<usize>) -> InputSlot {
    InputSlot {
        tensor_meta: InputTensorMetadata {
            id: TensorId::new(id.to_owned()),
            description: String::new(),
            optional: false,
            axes: InputAxisGroup(axes),
            preprocessing: vec![],
        },
        test_tensor: SampleTensor::new(shape),
    }
}

fn output_slot(id: &str, axes: Vec<OutputAxis>, shape: Vec<usize>) -> OutputSlot {
    OutputSlot {
        tensor_meta: OutputTensorMetadata {
            id: TensorId::new(id.to_owned()),
            description: String::new(),
            axes: OutputAxisGroup(axes),
            postprocessing: vec![],
        },
        test_tensor: SampleTensor::new(shape),
    }
}

#[test]
fn parameterized_compatibility_concrete_cases() {
    let family = ResolvedAxisSize::Parameterized(ParameterizedAxisSize { min: 2, step: 3 });
    for good in [2usize, 5, 8] {
        assert!(family.is_compatible_with_extent(good), "{good} belongs to the family");
    }
    for bad in [3usize, 4, 10] {
        assert!(!family.is_compatible_with_extent(bad), "{bad} is outside the family");
    }
    let fixed = ResolvedAxisSize::Fixed(5);
    assert!(fixed.is_compatible_with_extent(5));
    for bad in [0usize, 4, 6] {
        assert!(!fixed.is_compatible_with_extent(bad));
    }
}

#[test]
fn reference_across_tensors_builds() {
    // X declares axis `a` fixed at 4; Y's axis `b` references X.a.  Both
    // sample arrays have shape [4], so the interface builds, and Y.b
    // resolves to Fixed(4).
    let inputs = vec![input_slot("X", vec![input_space_axis("a", AnyAxisSize::Fixed(4))], vec![4])];
    let outputs = vec![output_slot(
        "Y",
        vec![output_space_axis(
            "b",
            AnyAxisSize::Reference(AxisSizeReference { qualified_axis_id: qid("X", "a"), offset: 0 }),
        )],
        vec![4],
    )];
    let interface = match ModelInterface::try_build(inputs, outputs) {
        Ok(interface) => interface,
        Err(e) => panic!("interface should build, got {e:?}"),
    };
    assert_eq!(interface.inputs().len(), 1);
    assert_eq!(interface.outputs().len(), 1);

    let resolver = bioimg::axis_size_resolver::SlotResolver::new(vec![
        (qid("X", "a"), AnyAxisSize::Fixed(4)),
        (
            qid("Y", "b"),
            AnyAxisSize::Reference(AxisSizeReference { qualified_axis_id: qid("X", "a"), offset: 0 }),
        ),
    ]).unwrap();
    let map = resolver.solve().unwrap();
    assert_eq!(map.get(&qid("Y", "b")), Some(&ResolvedAxisSize::Fixed(4)));
}

#[test]
fn incompatible_sample_shape_is_reported() {
    // Same interface, but Y's sample array has shape [5].
    let inputs = vec![input_slot("X", vec![input_space_axis("a", AnyAxisSize::Fixed(4))], vec![4])];
    let outputs = vec![output_slot(
        "Y",
        vec![output_space_axis(
            "b",
            AnyAxisSize::Reference(AxisSizeReference { qualified_axis_id: qid("X", "a"), offset: 0 }),
        )],
        vec![5],
    )];
    let err = expect_err(ModelInterface::try_build(inputs, outputs));
    match err {
        TensorValidationError::IncompatibleAxis {
            qualified_axis_id,
            test_tensor_dim_size,
            test_tensor_dim_index,
        } => {
            assert_eq!(qualified_axis_id.tensor_id.0, "Y");
            assert_eq!(qualified_axis_id.axis_id.0, "b");
            assert_eq!(test_tensor_dim_size, 5);
            assert_eq!(test_tensor_dim_index, 0);
        },
        _ => panic!("expected an incompatible-axis error"),
    }
}

#[test]
fn duplicate_tensor_ids_are_reported_before_shapes() {
    // Two tensors named "x"; the second even has a bad shape, but the
    // duplicate id wins.
    let inputs = vec![
        input_slot("x", vec![input_space_axis("a", AnyAxisSize::Fixed(4))], vec![4]),
        input_slot("x", vec![input_space_axis("b", AnyAxisSize::Fixed(4))], vec![9, 9]),
    ];
    let outputs = vec![output_slot("y", vec![output_space_axis("c", AnyAxisSize::Fixed(1))], vec![1])];
    let err = expect_err(ModelInterface::try_build(inputs, outputs));
    assert!(matches!(err, TensorValidationError::DuplicateTensorId(id) if id.0 == "x"));
}

#[test]
fn unknown_preprocessing_reference_is_reported() {
    let mut slot = input_slot("X", vec![input_space_axis("a", AnyAxisSize::Fixed(4))], vec![4]);
    slot.tensor_meta.preprocessing.push(PreprocessingDescr::ScaleRange(ScaleRangeDescr {
        axes: None,
        reference_tensor: Some(TensorId::new("nonexistent".to_owned())),
    }));
    let outputs = vec![output_slot("Y", vec![output_space_axis("b", AnyAxisSize::Fixed(4))], vec![4])];
    let err = expect_err(ModelInterface::try_build(vec![slot], outputs));
    assert!(matches!(
        err,
        TensorValidationError::InvalidTensorReference { reference } if reference.0 == "nonexistent"
    ));
}

#[test]
fn empty_lists_are_rejected() {
    let err = expect_err(ModelInterface::try_build(
        vec![],
        vec![output_slot("y", vec![output_space_axis("c", AnyAxisSize::Fixed(1))], vec![1])],
    ));
    assert!(matches!(err, TensorValidationError::EmptyInputs));

    let err = expect_err(ModelInterface::try_build(
        vec![input_slot("x", vec![input_space_axis("a", AnyAxisSize::Fixed(1))], vec![1])],
        vec![],
    ));
    assert!(matches!(err, TensorValidationError::EmptyOutputs));
}

#[test]
fn more_axes_than_dimensions_is_reported() {
    let inputs = vec![input_slot(
        "x",
        vec![
            input_space_axis("a", AnyAxisSize::Fixed(2)),
            input_space_axis("b", AnyAxisSize::Fixed(3)),
        ],
        vec![2],
    )];
    let outputs = vec![output_slot("y", vec![output_space_axis("c", AnyAxisSize::Fixed(1))], vec![1])];
    let err = expect_err(ModelInterface::try_build(inputs, outputs));
    match err {
        TensorValidationError::MismatchedNumDimensions { test_tensor_shape, num_described_axes } => {
            assert_eq!(test_tensor_shape, vec![2]);
            assert_eq!(num_described_axes, 2);
        },
        _ => panic!("expected a mismatched-dimension error"),
    }
}

#[test]
fn extra_dimensions_beyond_axes_are_tolerated() {
    // The validator walks the declared axes; trailing sample dimensions
    // with no declared axis are not checked.
    let inputs = vec![input_slot("x", vec![input_space_axis("a", AnyAxisSize::Fixed(2))], vec![2, 7])];
    let outputs = vec![output_slot("y", vec![output_space_axis("c", AnyAxisSize::Fixed(1))], vec![1])];
    assert!(ModelInterface::try_build(inputs, outputs).is_ok());
}

#[test]
fn parameterized_axis_accepts_family_members() {
    let inputs = vec![input_slot(
        "x",
        vec![input_space_axis(
            "a",
            AnyAxisSize::Parameterized(ParameterizedAxisSize { min: 2, step: 3 }),
        )],
        vec![8],
    )];
    let outputs = vec![output_slot("y", vec![output_space_axis("c", AnyAxisSize::Fixed(1))], vec![1])];
    assert!(ModelInterface::try_build(inputs, outputs).is_ok());
}

#[test]
fn batch_axis_consumes_a_dimension_without_constraint() {
    let axes = vec![
        InputAxis::Batch(BatchAxis { id: AxisId::new("batch".to_owned()), description: String::new() }),
        input_space_axis("a", AnyAxisSize::Fixed(3)),
    ];
    let inputs = vec![input_slot("x", axes, vec![999, 3])];
    let outputs = vec![output_slot("y", vec![output_space_axis("c", AnyAxisSize::Fixed(1))], vec![1])];
    assert!(ModelInterface::try_build(inputs, outputs).is_ok());
}

#[test]
fn output_reference_may_name_an_input() {
    let inputs = vec![input_slot("X", vec![input_space_axis("a", AnyAxisSize::Fixed(4))], vec![4])];
    let mut out = output_slot("Y", vec![output_space_axis("b", AnyAxisSize::Fixed(4))], vec![4]);
    out.tensor_meta.postprocessing.push(PostprocessingDescr::ScaleMeanVarianceDescr(
        ScaleMeanVarianceDescr { reference_tensor: TensorId::new("X".to_owned()), axes: None },
    ));
    assert!(ModelInterface::try_build(inputs, vec![out]).is_ok());
}

#[test]
fn input_reference_may_name_an_output() {
    // A pre-processing reference is valid whenever it names any tensor of
    // the interface, an output included.
    let mut slot = input_slot("X", vec![input_space_axis("a", AnyAxisSize::Fixed(4))], vec![4]);
    slot.tensor_meta.preprocessing.push(PreprocessingDescr::ScaleRange(ScaleRangeDescr {
        axes: None,
        reference_tensor: Some(TensorId::new("Y".to_owned())),
    }));
    let outputs = vec![output_slot("Y", vec![output_space_axis("b", AnyAxisSize::Fixed(4))], vec![4])];
    assert!(ModelInterface::try_build(vec![slot], outputs).is_ok());
}

#[test]
fn shape_errors_blame_the_first_offending_slot() {
    // The second input's axis rejects its sample extent, and the output
    // also declares too many axes; the scan meets the input first.
    let inputs = vec![
        input_slot("a", vec![input_space_axis("i", AnyAxisSize::Fixed(2))], vec![2]),
        input_slot("b", vec![input_space_axis("i", AnyAxisSize::Fixed(3))], vec![9]),
    ];
    let outputs = vec![output_slot(
        "c",
        vec![
            output_space_axis("i", AnyAxisSize::Fixed(1)),
            output_space_axis("j", AnyAxisSize::Fixed(1)),
        ],
        vec![1],
    )];
    let err = expect_err(ModelInterface::try_build(inputs, outputs));
    match err {
        TensorValidationError::IncompatibleAxis { qualified_axis_id, test_tensor_dim_size, .. } => {
            assert_eq!(qualified_axis_id.tensor_id.0, "b");
            assert_eq!(test_tensor_dim_size, 9);
        },
        _ => panic!("expected the second input slot to be blamed"),
    }
}
