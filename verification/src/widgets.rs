//! Plain state of the editor widgets, modeled without any drawing: the mode
//! selectors, the background-task bookkeeping, and the sample-tensor form
//! state that feeds the interface validator.

use vstd::prelude::*;

use crate::axes::OutputAxis;
use crate::axes::OutputAxisGroup;
use crate::axis_size::TensorId;
use crate::model_interface::OutputSlot;
use crate::model_interface::OutputTensorMetadata;
use crate::model_interface::SampleTensor;
use crate::preprocessing::PostprocessingDescr;
use crate::project_data::AppState1SavedData;

verus! {

/// What a finished background task hands back to the editor.
pub enum TaskResult {
    /// A message for the user: the text of a success or of a failure.
    Notification(Result<String, String>),
    /// A project state recovered from a loaded archive, with the warnings
    /// gathered while recovering it.
    PartialModelLoad(AppStateFromPartial),
}

impl TaskResult {
    pub fn ok_message(msg: String) -> (r: TaskResult)
        ensures
            r matches TaskResult::Notification(n) && n == Ok::<String, String>(msg),
    {
        TaskResult::Notification(Ok(msg))
    }

    pub fn err_message(msg: String) -> (r: TaskResult)
        ensures
            r matches TaskResult::Notification(n) && n == Err::<String, String>(msg),
    {
        TaskResult::Notification(Err(msg))
    }
}

/// A recovered project state together with recovery warnings.
pub struct AppStateFromPartial {
    pub state: AppState1SavedData,
    pub warnings: String,
}

/// A monotone counter that tells apart requests made at different times.
#[derive(PartialEq, Eq, Structural, PartialOrd, Ord, Copy, Clone, Debug, Default)]
pub struct Generation(pub i64);

impl Generation {
    pub fn incremented(self) -> (r: Generation)
        requires
            self.0 < i64::MAX,
        ensures
            r.0 == self.0 + 1,
    {
        Generation(self.0 + 1)
    }
}

/// The state of the sample-tensor form of one tensor slot.
pub enum TestTensorWidgetState {
    Empty,
    Loaded { path: Option<String>, data: SampleTensor },
    Error { message: String },
}

/// The sample-tensor form of one tensor slot.
pub struct TestTensorWidget {
    state: TestTensorWidgetState,
}

impl TestTensorWidget {
    /// The form's state.
    pub closed spec fn spec_state(self) -> TestTensorWidgetState {
        self.state
    }

    pub fn new(state: TestTensorWidgetState) -> (r: TestTensorWidget)
        ensures
            r.spec_state() == state,
    {
        TestTensorWidget { state }
    }

    pub fn state(&self) -> (r: &TestTensorWidgetState)
        ensures
            r == self.spec_state(),
    {
        &self.state
    }
}

/// A collapsible wrapper around an inner form.
pub struct CollapsibleWidget<W> {
    pub is_closed: bool,
    pub inner: W,
}

/// Copies the axes of an output-tensor form.
fn clone_output_axes(v: &Vec<OutputAxis>) -> (r: Vec<OutputAxis>)
    ensures
        r@.len() == v@.len(),
        forall|i: int|
            0 <= i < v@.len() ==> {
                let a = #[trigger] r@[i];
                &&& a.spec_axis_type() == v@[i].spec_axis_type()
                &&& a.spec_id() == v@[i].spec_id()
                &&& a.spec_size() == v@[i].spec_size()
            },
{
    let mut r: Vec<OutputAxis> = Vec::new();
    let n = v.len();
    for i in 0..n
        invariant
            n == v@.len(),
            r@.len() == i,
            forall|j: int|
                0 <= j < i ==> {
                    let a = #[trigger] r@[j];
                    &&& a.spec_axis_type() == v@[j].spec_axis_type()
                    &&& a.spec_id() == v@[j].spec_id()
                    &&& a.spec_size() == v@[j].spec_size()
                },
    {
        r.push(v[i].clone());
    }
    r
}

/// Copies the post-processing steps out of their collapsible wrappers.
fn collect_postprocessing(v: &Vec<CollapsibleWidget<PostprocessingDescr>>) -> (r: Vec<
    PostprocessingDescr,
>)
    ensures
        r@.len() == v@.len(),
        forall|p: int|
            0 <= p < v@.len() ==> (#[trigger] r@[p]).spec_reference()
                == v@[p].inner.spec_reference(),
{
    let mut r: Vec<PostprocessingDescr> = Vec::new();
    let n = v.len();
    for i in 0..n
        invariant
            n == v@.len(),
            r@.len() == i,
            forall|p: int|
                0 <= p < i ==> (#[trigger] r@[p]).spec_reference()
                    == v@[p].inner.spec_reference(),
    {
        r.push(v[i].inner.clone());
    }
    r
}

/// The output-tensor form: the declared metadata side by side with the
/// sample-tensor form.
pub struct OutputTensorWidget {
    pub id_widget: String,
    pub description_widget: String,
    pub axis_widgets: Vec<OutputAxis>,
    pub test_tensor_widget: TestTensorWidget,
    pub postprocessing_widgets: Vec<CollapsibleWidget<PostprocessingDescr>>,
}

impl OutputTensorWidget {
    /// Reads the form into an output slot for validation.  Succeeds exactly
    /// when a sample tensor has been loaded and the form declares one axis
    /// per sample dimension; the slot then carries the form's id,
    /// description, axes, steps and sample shape.
    pub fn parse(&self) -> (r: Result<OutputSlot, String>)
        ensures
            r is Ok <==> (self.test_tensor_widget.spec_state() matches
                TestTensorWidgetState::Loaded { path, data } && self.axis_widgets@.len()
                == data.shape@.len()),
            match r {
                Ok(slot) => {
                    &&& self.test_tensor_widget.spec_state() matches
                        TestTensorWidgetState::Loaded { path, data } && slot.test_tensor.shape@
                        == data.shape@
                    &&& slot.spec_id() == self.id_widget@
                    &&& slot.tensor_meta.description@ == self.description_widget@
                    &&& slot.spec_axes().len() == self.axis_widgets@.len()
                    &&& forall|i: int|
                        0 <= i < self.axis_widgets@.len() ==> {
                            let a = #[trigger] slot.spec_axes()[i];
                            &&& a.spec_axis_type() == self.axis_widgets@[i].spec_axis_type()
                            &&& a.spec_id() == self.axis_widgets@[i].spec_id()
                            &&& a.spec_size() == self.axis_widgets@[i].spec_size()
                        }
                    &&& slot.tensor_meta.postprocessing@.len()
                        == self.postprocessing_widgets@.len()
                    &&& forall|p: int|
                        0 <= p < self.postprocessing_widgets@.len() ==> (
                        #[trigger] slot.tensor_meta.postprocessing@[p]).spec_reference()
                            == self.postprocessing_widgets@[p].inner.spec_reference()
                },
                Err(_) => true,
            },
    {
        let data = match self.test_tensor_widget.state() {
            TestTensorWidgetState::Loaded { path, data } => data,
            _ => {
                return Err("Test tensor is missing".to_owned());
            },
        };
        if self.axis_widgets.len() != data.shape.len() {
            return Err(
                "The sample tensor's dimensions do not match the declared axes".to_owned(),
            );
        }
        Ok(
            OutputSlot {
                tensor_meta: OutputTensorMetadata {
                    id: TensorId::new(self.id_widget.clone()),
                    description: self.description_widget.clone(),
                    axes: OutputAxisGroup(clone_output_axes(&self.axis_widgets)),
                    postprocessing: collect_postprocessing(&self.postprocessing_widgets),
                },
                test_tensor: data.clone(),
            },
        )
    }
}

/// Which source a file form currently offers.
#[derive(Clone, Copy, PartialEq, Eq, Structural, Debug)]
pub enum FileSourceWidgetMode {
    Local,
    Url,
}

/// Which pre-processing step a form currently edits.
#[derive(Clone, Copy, PartialEq, Eq, Structural, Debug)]
pub enum PreprocessingWidgetMode {
    Binarize,
    Clip,
    ScaleLinear,
    Sigmoid,
    ZeroMeanUnitVariance,
    ScaleRange,
    EnsureDtype,
    FixedZmuv,
}

/// Whether a step-kind picker is drawn.
pub enum ShowPreprocTypePicker {
    Show,
    Hide,
}

/// Which linear-scaling form a step form currently edits.
#[derive(Clone, Copy, PartialEq, Eq, Structural, Debug)]
pub enum ScaleLinearMode {
    Simple,
    AlongAxis,
}

/// Labeling for lists of gain and offset pairs.
pub struct GainOffsetItemConfig;

/// An optional value edited in place.
pub struct StagingOpt<Stg, const DRAW_FRAME: bool>(pub Option<Stg>);

/// Whether a picker offers a search box.
pub enum SearchVisibility {
    Show,
    Hide,
}

/// How an item of a list form is laid out.
#[derive(Clone, Copy, PartialEq, Eq, Structural, Debug)]
pub enum WidgetItemPosition {
    Inline,
    Block,
}

} // verus!
