//! The data that a model draft saves to disk: a plain snapshot of every
//! editor form.  Once published, the shape of these types is kept stable so
//! that drafts saved by earlier versions stay loadable; newer shapes are
//! added as new versions beside the old ones.

use vstd::prelude::*;

use crate::axes::AxisType;
use crate::rdf::DataType;

verus! {

/// Snapshot of an author form.
pub struct AuthorWidgetSavedData {
    pub name_widget: String,
    pub affiliation_widget: Option<String>,
    pub email_widget: Option<String>,
    pub github_user_widget: Option<String>,
    pub orcid_widget: Option<String>,
}

/// Snapshot of a citation form.
pub struct CiteEntryWidgetSavedData {
    pub citation_text_widget: String,
    pub doi_widget: Option<String>,
    pub url_widget: Option<String>,
}

/// Snapshot of a maintainer form.
pub struct MaintainerWidgetSavedData {
    pub github_user_widget: String,
    pub affiliation_widget: Option<String>,
    pub email_widget: Option<String>,
    pub orcid_widget: Option<String>,
    pub name_widget: Option<String>,
}

/// Snapshot of a plain file-picking form.
pub enum FileWidgetSavedData {
    Empty,
    AboutToLoad { path: String },
}

/// Snapshot of a sample-tensor form: nothing yet, or the raw bytes of the
/// chosen array file.
pub enum TestTensorWidgetSavedData {
    Empty,
    Loaded { path: Option<String>, data: Vec<u8> },
}

/// Snapshot of a local file source.
pub enum LocalFileSourceWidgetSavedData {
    Empty,
    InMemoryData { name: Option<String>, data: Vec<u8> },
    AboutToLoad { path: String, inner_path: Option<String> },
}

/// Snapshot of a file source: a local file or a URL.
pub enum FileSourceWidgetSavedData {
    Local(LocalFileSourceWidgetSavedData),
    Url(String),
}

/// Snapshot of an image form's loading state.
pub enum ImageWidget2LoadingStateSavedData {
    Empty,
    Forced { img_bytes: Vec<u8> },
}

/// Snapshot of an image form.
pub struct ImageWidget2SavedData {
    pub file_source_widget: FileSourceWidgetSavedData,
    pub loading_state: ImageWidget2LoadingStateSavedData,
}

/// Snapshot of an image form with a fixed role (a cover, an icon).
pub struct SpecialImageWidgetSavedData {
    pub image_widget: ImageWidget2SavedData,
}

/// Snapshot of an icon form: emoji text or an image.
pub enum IconWidgetSavedData {
    Emoji(String),
    Image(SpecialImageWidgetSavedData),
}

/// Snapshot of a collapsible wrapper around an inner form.
pub struct CollapsibleWidgetSavedData<Inner> {
    pub is_closed: bool,
    pub inner: Inner,
}

impl<Inner> CollapsibleWidgetSavedData<Inner> {
    /// Wraps an inner snapshot, collapsed.
    pub fn new(inner: Inner) -> (r: CollapsibleWidgetSavedData<Inner>)
        ensures
            r.inner == inner,
            r.is_closed,
    {
        CollapsibleWidgetSavedData { inner, is_closed: true }
    }
}

/// Snapshot of a version form.
pub struct VersionWidgetSavedData {
    pub raw: String,
}

/// Snapshot of a code editor form.
pub struct CodeEditorWidgetSavedData {
    pub raw: String,
}

/// Snapshot of a physical-scale form: the raw scale text and a unit.
pub struct PhysicalScaleWidgetSavedData<T> {
    pub raw_scale: String,
    pub unit_widget: Option<T>,
}

/// Snapshot of a batch-axis form.
pub struct BatchAxisWidgetSavedData {
    pub description_widget: String,
    pub staging_allow_auto_size: bool,
}

/// How channel names are given: one by one, or by a pattern.
pub enum ChannelNamesModeSavedData {
    Explicit,
    Pattern,
}

/// Which kind of axis size a form currently edits.
pub enum AxisSizeModeSavedData {
    Fixed,
    Reference,
    Parameterized,
}

/// Snapshot of a parameterized-size form.
pub struct ParameterizedAxisSizeWidgetSavedData {
    pub staging_min: usize,
    pub staging_step: usize,
}

/// Snapshot of an axis-size form, with one sub-form per size kind.
pub struct AnyAxisSizeWidgetSavedData {
    pub mode: AxisSizeModeSavedData,
    pub staging_fixed_size: usize,
    pub staging_size_ref: AxisSizeReferenceWidgetSavedData,
    pub staging_parameterized: ParameterizedAxisSizeWidgetSavedData,
}

/// Snapshot of an index-axis form.
pub struct IndexAxisWidgetSavedData {
    pub description_widget: String,
    pub size_widget: AnyAxisSizeWidgetSavedData,
}

/// Snapshot of a size-reference form.
pub struct AxisSizeReferenceWidgetSavedData {
    pub staging_tensor_id: String,
    pub staging_axis_id: String,
    pub staging_offset: usize,
}

/// Snapshot of a channel-axis form.
pub struct ChannelAxisWidgetSavedData {
    pub description_widget: String,
    pub channel_names_mode_widget: ChannelNamesModeSavedData,
    pub channel_extent_widget: usize,
    pub channel_name_prefix_widget: String,
    pub channel_name_suffix_widget: String,
    pub staging_explicit_names: Vec<String>,
}

/// Snapshot of an input space-axis form.
pub struct InputSpaceAxisWidgetSavedData {
    pub id_widget: String,
    pub description_widget: String,
    pub size_widget: AnyAxisSizeWidgetSavedData,
    pub physical_scale_widget: PhysicalScaleWidgetSavedData<String>,
}

/// Snapshot of an input time-axis form.
pub struct InputTimeAxisWidgetSavedData {
    pub id_widget: String,
    pub description_widget: String,
    pub size_widget: AnyAxisSizeWidgetSavedData,
    pub physical_scale_widget: PhysicalScaleWidgetSavedData<String>,
}

/// Snapshot of an input-axis form, one sub-form per axis kind.
pub struct InputAxisWidgetSavedData {
    pub axis_type_widget: AxisType,
    pub batch_axis_widget: BatchAxisWidgetSavedData,
    pub channel_axis_widget: ChannelAxisWidgetSavedData,
    pub index_axis_widget: IndexAxisWidgetSavedData,
    pub space_axis_widget: InputSpaceAxisWidgetSavedData,
    pub time_axis_widget: InputTimeAxisWidgetSavedData,
}

/// Snapshot of the part every weights form shares.
pub struct WeightsDescrBaseWidgetSavedData {
    pub source_widget: FileSourceWidgetSavedData,
    pub authors_widget: Option<Vec<CollapsibleWidgetSavedData<AuthorWidgetSavedData>>>,
}

/// Snapshot of a torchscript weights form.
pub struct TorchscriptWeightsWidgetSavedData {
    pub base_widget: WeightsDescrBaseWidgetSavedData,
    pub pytorch_version_widget: VersionWidgetSavedData,
}

/// Snapshot of a JSON object editor.
pub struct JsonObjectEditorWidgetSavedData {
    pub code_editor_widget: CodeEditorWidgetSavedData,
}

/// Snapshot of an environment-file editor.
pub struct CondaEnvEditorWidgetSavedData {
    pub code_editor_widget: CodeEditorWidgetSavedData,
}

/// Where a model architecture comes from.
pub enum PytorchArchModeSavedData {
    FromFile,
    FromLib,
}

/// Snapshot of an architecture form.
pub struct PytorchArchWidgetSavedData {
    pub mode_widget: PytorchArchModeSavedData,
    pub callable_widget: String,
    pub kwargs_widget: JsonObjectEditorWidgetSavedData,
    pub import_from_widget: String,
    pub source_widget: FileSourceWidgetSavedData,
}

/// Snapshot of a state-dict weights form.
pub struct PytorchStateDictWidgetSavedData {
    pub base_widget: WeightsDescrBaseWidgetSavedData,
    pub architecture_widget: PytorchArchWidgetSavedData,
    pub version_widget: VersionWidgetSavedData,
    pub dependencies_widget: Option<CondaEnvEditorWidgetSavedData>,
}

/// Snapshot of an onnx weights form.
pub struct OnnxWeightsWidgetSavedData {
    pub base_widget: WeightsDescrBaseWidgetSavedData,
    pub opset_version_widget: u32,
}

/// Snapshot of a keras weights form.
pub struct KerasHdf5WeightsWidgetSavedData {
    pub base_widget: WeightsDescrBaseWidgetSavedData,
    pub tensorflow_version_widget: VersionWidgetSavedData,
}

/// Snapshot of the weights form, one optional entry per format.
pub struct WeightsWidgetSavedData {
    pub keras_weights_widget: Option<
        CollapsibleWidgetSavedData<KerasHdf5WeightsWidgetSavedData>,
    >,
    pub torchscript_weights_widget: Option<
        CollapsibleWidgetSavedData<TorchscriptWeightsWidgetSavedData>,
    >,
    pub pytorch_state_dict_weights_widget: Option<
        CollapsibleWidgetSavedData<PytorchStateDictWidgetSavedData>,
    >,
    pub onnx_weights_widget: Option<CollapsibleWidgetSavedData<OnnxWeightsWidgetSavedData>>,
}

/// Snapshot of an input-tensor form.
pub struct InputTensorWidgetSavedData {
    pub id_widget: String,
    pub is_optional: bool,
    pub description_widget: String,
    pub axis_widgets: Vec<InputAxisWidgetSavedData>,
    pub test_tensor_widget: TestTensorWidgetSavedData,
    pub preprocessing_widget: Vec<PreprocessingWidgetSavedData>,
}

/// Which pre-processing step a saved form was editing.
pub enum PreprocessingWidgetModeSavedData {
    Binarize,
    Clip,
    ScaleLinear,
    Sigmoid,
    ZeroMeanUnitVariance,
    ScaleRange,
    EnsureDtype,
    FixedZmuv,
}

/// Which binarize form was in use.
pub enum BinarizeModeSavedData {
    Simple,
    AlongAxis,
}

/// Snapshot of a single-threshold binarize form.
pub struct SimpleBinarizeWidgetSavedData {
    pub threshold_widget: String,
}

/// Snapshot of a per-axis binarize form.
pub struct BinarizeAlongAxisWidgetSavedData {
    pub thresholds_widget: Vec<String>,
    pub axis_id_widget: String,
}

/// Snapshot of the binarize step form.
pub struct BinarizePreprocessingWidgetSavedData {
    pub mode: BinarizeModeSavedData,
    pub simple_binarize_widget: SimpleBinarizeWidgetSavedData,
    pub binarize_along_axis_wiget: BinarizeAlongAxisWidgetSavedData,
}

/// Snapshot of a clip step form.
pub struct ClipWidgetSavedData {
    pub min_widget: String,
    pub max_widget: String,
}

/// Which linear-scaling form was in use.
pub enum ScaleLinearModeSavedData {
    Simple,
    AlongAxis,
}

/// Snapshot of a whole-tensor linear-scaling form.
pub struct SimpleScaleLinearWidgetSavedData {
    pub gain_widget: String,
    pub offset_widget: String,
}

/// Snapshot of a per-axis linear-scaling form.
pub struct ScaleLinearAlongAxisWidgetSavedData {
    pub axis_widget: String,
    pub gain_offsets_widget: Vec<SimpleScaleLinearWidgetSavedData>,
}

/// Snapshot of a zero-mean unit-variance step form.
pub struct ZeroMeanUnitVarianceWidgetSavedData {
    pub axes_widget: Option<Vec<String>>,
    pub epsilon_widget: String,
}

/// Snapshot of a percentile-range form.
pub struct PercentilesWidgetSavedData {
    pub min_widget: String,
    pub max_widget: String,
}

/// Snapshot of a range-scaling step form.
pub struct ScaleRangeWidgetSavedData {
    pub axes_widget: Option<Vec<String>>,
    pub percentiles_widget: PercentilesWidgetSavedData,
    pub epsilon_widget: String,
    pub reference_tensor: Option<String>,
}

/// Which fixed zero-mean unit-variance form was in use.
pub enum ZmuvWidgetModeSavedData {
    Simple,
    AlongAxis,
}

/// Snapshot of a whole-tensor fixed zero-mean unit-variance form.
pub struct SimpleFixedZmuvWidgetSavedData {
    pub mean_widget: String,
    pub std_widget: String,
}

/// Snapshot of a per-axis fixed zero-mean unit-variance form.
pub struct FixedZmuvAlongAxisWidgetSavedData {
    pub axis_widget: String,
    pub mean_and_std_widget: Vec<SimpleFixedZmuvWidgetSavedData>,
}

/// Snapshot of the fixed zero-mean unit-variance step form.
pub struct FixedZmuvWidgetSavedData {
    pub mode_widget: ZmuvWidgetModeSavedData,
    pub simple_widget: SimpleFixedZmuvWidgetSavedData,
    pub along_axis_widget: FixedZmuvAlongAxisWidgetSavedData,
}

/// Snapshot of the linear-scaling step form.
pub struct ScaleLinearWidgetSavedData {
    pub mode: ScaleLinearModeSavedData,
    pub simple_widget: SimpleScaleLinearWidgetSavedData,
    pub along_axis_widget: ScaleLinearAlongAxisWidgetSavedData,
}

/// Snapshot of one pre-processing step form.
pub struct PreprocessingWidgetSavedData {
    pub mode: PreprocessingWidgetModeSavedData,
    pub binarize_widget: BinarizePreprocessingWidgetSavedData,
    pub clip_widget: ClipWidgetSavedData,
    pub scale_linear_widget: ScaleLinearWidgetSavedData,
    pub zero_mean_unit_variance_widget: ZeroMeanUnitVarianceWidgetSavedData,
    pub scale_range_widget: ScaleRangeWidgetSavedData,
    pub ensure_dtype_widget: DataType,
    pub fixed_zmuv_widget: FixedZmuvWidgetSavedData,
}

/// Snapshot of an output axis-size form, with its optional halo.
pub struct OutputSpacetimeSizeWidgetSavedData {
    pub has_halo: bool,
    pub halo_widget: u64,
    pub size_widget: AnyAxisSizeWidgetSavedData,
}

/// Snapshot of an output time-axis form.
pub struct OutputTimeAxisWidgetSavedData {
    pub id_widget: String,
    pub description_widget: String,
    pub size_widget: OutputSpacetimeSizeWidgetSavedData,
    pub physical_scale_widget: PhysicalScaleWidgetSavedData<String>,
}

/// Snapshot of an output space-axis form.
pub struct OutputSpaceAxisWidgetSavedData {
    pub id_widget: String,
    pub description_widget: String,
    pub size_widget: OutputSpacetimeSizeWidgetSavedData,
    pub physical_scale_widget: PhysicalScaleWidgetSavedData<String>,
}

/// Snapshot of an output-axis form, one sub-form per axis kind.
pub struct OutputAxisWidgetSavedData {
    pub axis_type_widget: AxisType,
    pub batch_axis_widget: BatchAxisWidgetSavedData,
    pub channel_axis_widget: ChannelAxisWidgetSavedData,
    pub index_axis_widget: IndexAxisWidgetSavedData,
    pub space_axis_widget: OutputSpaceAxisWidgetSavedData,
    pub time_axis_widget: OutputTimeAxisWidgetSavedData,
}

/// Which post-processing step a saved form was editing.
pub enum PostprocessingWidgetModeSavedData {
    Binarize,
    Clip,
    ScaleLinear,
    Sigmoid,
    ZeroMeanUnitVariance,
    ScaleRange,
    EnsureDtype,
    FixedZmuv,
    ScaleMeanVariance,
}

/// Snapshot of a mean/variance-scaling step form.
pub struct ScaleMeanVarianceWidgetSavedData {
    pub reference_tensor_widget: String,
    pub axes_widget: Option<Vec<String>>,
    pub eps_widget: String,
}

/// Snapshot of one post-processing step form.
pub struct PostprocessingWidgetSavedData {
    pub mode: PostprocessingWidgetModeSavedData,
    pub binarize_widget: BinarizePreprocessingWidgetSavedData,
    pub clip_widget: ClipWidgetSavedData,
    pub scale_linear_widget: ScaleLinearWidgetSavedData,
    pub zero_mean_unit_variance_widget: ZeroMeanUnitVarianceWidgetSavedData,
    pub scale_range_widget: ScaleRangeWidgetSavedData,
    pub ensure_dtype_widget: DataType,
    pub fixed_zmuv_widget: FixedZmuvWidgetSavedData,
    pub scale_mean_var_widget: ScaleMeanVarianceWidgetSavedData,
}

/// Snapshot of an output-tensor form.
pub struct OutputTensorWidgetSavedData {
    pub id_widget: String,
    pub description_widget: String,
    pub axis_widgets: Vec<OutputAxisWidgetSavedData>,
    pub test_tensor_widget: TestTensorWidgetSavedData,
    pub postprocessing_widgets: Vec<CollapsibleWidgetSavedData<PostprocessingWidgetSavedData>>,
}

/// Snapshot of the whole model-interface form.
pub struct ModelInterfaceWidgetSavedData {
    pub input_widgets: Vec<InputTensorWidgetSavedData>,
    pub output_widgets: Vec<OutputTensorWidgetSavedData>,
}

/// The versioned envelope of a saved project: newer, incompatible shapes
/// are added as further variants so that older drafts stay recognizable.
pub enum AppStateSavedData {
    Version1(AppState1SavedData),
}

impl AppStateSavedData {
    /// The newest project version this build can load.
    pub fn highest_supported_version() -> (r: &'static str)
        ensures
            r@ == "Version1"@,
    {
        "Version1"
    }
}

/// Snapshot of the whole editor, first shape.
pub struct AppState1SavedData {
    pub staging_name: String,
    pub staging_description: String,
    pub cover_images: Vec<SpecialImageWidgetSavedData>,
    pub model_id_widget: Option<String>,
    pub staging_authors: Vec<AuthorWidgetSavedData>,
    pub attachments_widget: Vec<FileSourceWidgetSavedData>,
    pub staging_citations: Vec<CiteEntryWidgetSavedData>,
    pub custom_config_widget: Option<JsonObjectEditorWidgetSavedData>,
    pub staging_git_repo: Option<String>,
    pub icon_widget: Option<IconWidgetSavedData>,
    pub links_widget: Vec<String>,
    pub staging_maintainers: Vec<MaintainerWidgetSavedData>,
    pub staging_tags: Vec<String>,
    pub staging_version: Option<VersionWidgetSavedData>,
    pub staging_version_comment: Option<String>,
    pub staging_documentation: CodeEditorWidgetSavedData,
    pub staging_license: String,
    pub model_interface_widget: ModelInterfaceWidgetSavedData,
    pub weights_widget: WeightsWidgetSavedData,
}

} // verus!
