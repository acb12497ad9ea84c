//! The plain editor-state helpers and the description data model around
//! the validator.

use bioimg::axes::AxisType;
use bioimg::axes::ChannelAxis;
use bioimg::axes::InputAxis;
use bioimg::axis_size::AnyAxisSize;
use bioimg::axis_size::AxisId;
use bioimg::model_interface::SampleTensor;
use bioimg::project_data::AppStateSavedData;
use bioimg::project_data::CollapsibleWidgetSavedData;
use bioimg::rdf::DataType;
use bioimg::rdf::SingleOrMultiple;
use bioimg::rdf::UintDataType;
use bioimg::axes::OutputAxis;
use bioimg::axes::OutputSpacetimeSize;
use bioimg::axes::SpaceOutputAxis;
use bioimg::widgets::Generation;
use bioimg::widgets::OutputTensorWidget;
use bioimg::widgets::TaskResult;
use bioimg::widgets::TestTensorWidget;
use bioimg::widgets::TestTensorWidgetState;

#[test]
fn task_result_messages_round_trip() {
    let ok = TaskResult::ok_message("saved".to_owned());
    assert!(matches!(ok, TaskResult::Notification(Ok(m)) if m == "saved"));
    let err = TaskResult::err_message("broken".to_owned());
    assert!(matches!(err, TaskResult::Notification(Err(m)) if m == "broken"));
}

#[test]
fn generation_increments_by_one() {
    let g = Generation(41);
    assert_eq!(g.incremented(), Generation(42));
    assert_eq!(Generation::default().incremented(), Generation(1));
}

#[test]
fn collapsible_snapshot_starts_closed() {
    let wrapped = CollapsibleWidgetSavedData::new(7u32);
    assert!(wrapped.is_closed);
    assert_eq!(wrapped.inner, 7);
}

#[test]
fn highest_supported_version_is_the_first() {
    assert_eq!(AppStateSavedData::highest_supported_version(), "Version1");
}

#[test]
fn test_tensor_widget_reports_its_state() {
    let widget = TestTensorWidget::new(TestTensorWidgetState::Loaded {
        path: None,
        data: SampleTensor::new(vec![1, 2, 3]),
    });
    match widget.state() {
        TestTensorWidgetState::Loaded { path, data } => {
            assert!(path.is_none());
            assert_eq!(data.shape(), &vec![1, 2, 3]);
        },
        _ => panic!("the widget should hold the loaded sample"),
    }
}

#[test]
fn single_or_multiple_as_slice() {
    let one: SingleOrMultiple<u32> = SingleOrMultiple::Single(5);
    assert_eq!(one.as_slice(), &[5]);
    let many: SingleOrMultiple<u32> = SingleOrMultiple::Multiple(vec![1, 2, 3]);
    assert_eq!(many.as_slice(), &[1, 2, 3]);
}

#[test]
fn uint_data_types_widen() {
    assert_eq!(DataType::from(UintDataType::Uint8), DataType::Uint8);
    assert_eq!(DataType::from(UintDataType::Uint64), DataType::Uint64);
}

#[test]
fn input_axis_accessors() {
    let axis = InputAxis::Channel(ChannelAxis {
        id: AxisId::new("c".to_owned()),
        description: String::new(),
        channel_names: vec!["red".to_owned(), "green".to_owned()],
    });
    assert_eq!(axis.axis_type(), AxisType::Channel);
    assert_eq!(axis.id().0, "c");
    assert!(matches!(axis.size(), Some(AnyAxisSize::Fixed(2))));
}

#[test]
fn output_form_parses_into_a_slot() {
    let widget = OutputTensorWidget {
        id_widget: "Y".to_owned(),
        description_widget: "probabilities".to_owned(),
        axis_widgets: vec![OutputAxis::Space(SpaceOutputAxis {
            id: AxisId::new("b".to_owned()),
            description: String::new(),
            size: OutputSpacetimeSize { size: AnyAxisSize::Fixed(4), halo: None },
        })],
        test_tensor_widget: TestTensorWidget::new(TestTensorWidgetState::Loaded {
            path: None,
            data: SampleTensor::new(vec![4]),
        }),
        postprocessing_widgets: vec![],
    };
    let slot = match widget.parse() {
        Ok(slot) => slot,
        Err(e) => panic!("the form should parse: {e}"),
    };
    assert_eq!(slot.tensor_meta.id.0, "Y");
    assert_eq!(slot.test_tensor.shape(), &vec![4]);
}

#[test]
fn output_form_without_sample_does_not_parse() {
    let widget = OutputTensorWidget {
        id_widget: "Y".to_owned(),
        description_widget: String::new(),
        axis_widgets: vec![],
        test_tensor_widget: TestTensorWidget::new(TestTensorWidgetState::Empty),
        postprocessing_widgets: vec![],
    };
    assert!(widget.parse().is_err());
}
