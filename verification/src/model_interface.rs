//! The tensor-interface validator: a set of named input and output tensor
//! slots, each carrying its axis list and a sample tensor, is checked for
//! duplicate tensor ids, resolvable axis sizes, sample shapes compatible
//! with the resolved sizes, and processing steps whose tensor references
//! exist.

use vstd::prelude::*;

use crate::axes::InputAxis;
use crate::axes::InputAxisGroup;
use crate::axes::OutputAxis;
use crate::axes::OutputAxisGroup;
use crate::axis_size::AnyAxisSize;
use crate::axis_size::QidView;
use crate::axis_size::QualifiedAxisId;
use crate::axis_size::ResolvedView;
use crate::axis_size::SizeView;
use crate::axis_size::TensorId;
use crate::axis_size::compatible;
use crate::axis_size::size_view_wf;
use crate::axis_size_resolver::AxisSizeResolutionError;
use crate::axis_size_resolver::ResolvedAxisSizeExt;
use crate::axis_size_resolver::failed_resolution;
use crate::axis_size_resolver::resolves_to;
use crate::axis_size_resolver::solvable;
use crate::preprocessing::PostprocessingDescr;
use crate::preprocessing::PreprocessingDescr;

verus! {

/// A sample tensor, reduced to what interface validation reads of it: its
/// shape.  The sample's numeric contents are carried and checked elsewhere.
pub struct SampleTensor {
    pub shape: Vec<usize>,
}

impl SampleTensor {
    pub fn new(shape: Vec<usize>) -> (r: SampleTensor)
        ensures
            r.shape@ == shape@,
    {
        SampleTensor { shape }
    }

    /// The extent of each dimension, in order.
    pub fn shape(&self) -> (r: &Vec<usize>)
        ensures
            r@ == self.shape@,
    {
        &self.shape
    }
}

impl Clone for SampleTensor {
    fn clone(&self) -> (r: Self)
        ensures
            r.shape@ == self.shape@,
    {
        SampleTensor { shape: clone_shape(&self.shape) }
    }
}

/// Everything an input tensor declares about itself.
pub struct InputTensorMetadata {
    pub id: TensorId,
    pub description: String,
    pub optional: bool,
    pub axes: InputAxisGroup,
    pub preprocessing: Vec<PreprocessingDescr>,
}

impl InputTensorMetadata {
    /// The declared axes, in order.
    pub fn axes(&self) -> (r: &Vec<InputAxis>)
        ensures
            r@ == self.axes.0@,
    {
        &self.axes.0
    }

    /// The declared pre-processing steps, in order.
    pub fn preprocessing(&self) -> (r: &Vec<PreprocessingDescr>)
        ensures
            r@ == self.preprocessing@,
    {
        &self.preprocessing
    }
}

/// Everything an output tensor declares about itself.
pub struct OutputTensorMetadata {
    pub id: TensorId,
    pub description: String,
    pub axes: OutputAxisGroup,
    pub postprocessing: Vec<PostprocessingDescr>,
}

impl OutputTensorMetadata {
    /// The declared axes, in order.
    pub fn axes(&self) -> (r: &Vec<OutputAxis>)
        ensures
            r@ == self.axes.0@,
    {
        &self.axes.0
    }

    /// The declared post-processing steps, in order.
    pub fn postprocessing(&self) -> (r: &Vec<PostprocessingDescr>)
        ensures
            r@ == self.postprocessing@,
    {
        &self.postprocessing
    }
}

/// An input tensor slot: its declared metadata plus a sample tensor.
pub struct InputSlot {
    pub tensor_meta: InputTensorMetadata,
    pub test_tensor: SampleTensor,
}

/// An output tensor slot: its declared metadata plus a sample tensor.
pub struct OutputSlot {
    pub tensor_meta: OutputTensorMetadata,
    pub test_tensor: SampleTensor,
}

impl InputSlot {
    /// The owning tensor's identifier text.
    pub open spec fn spec_id(self) -> Seq<char> {
        self.tensor_meta.id@
    }

    /// The declared axes.
    pub open spec fn spec_axes(self) -> Seq<InputAxis> {
        self.tensor_meta.axes.0@
    }

    /// The qualified id of the axis at position `i`.
    pub open spec fn spec_qid(self, i: int) -> QidView {
        QidView { tensor: self.spec_id(), axis: self.spec_axes()[i].spec_id() }
    }
}

impl OutputSlot {
    /// The owning tensor's identifier text.
    pub open spec fn spec_id(self) -> Seq<char> {
        self.tensor_meta.id@
    }

    /// The declared axes.
    pub open spec fn spec_axes(self) -> Seq<OutputAxis> {
        self.tensor_meta.axes.0@
    }

    /// The qualified id of the axis at position `i`.
    pub open spec fn spec_qid(self, i: int) -> QidView {
        QidView { tensor: self.spec_id(), axis: self.spec_axes()[i].spec_id() }
    }
}

/// Why a candidate interface was rejected.
#[derive(Debug)]
pub enum TensorValidationError {
    /// A sample tensor has fewer dimensions than its tensor declares axes.
    MismatchedNumDimensions { test_tensor_shape: Vec<usize>, num_described_axes: usize },
    /// One dimension of a sample tensor does not fit the resolved size of
    /// the axis declared at the same position.
    IncompatibleAxis {
        qualified_axis_id: QualifiedAxisId,
        test_tensor_dim_size: usize,
        test_tensor_dim_index: usize,
    },
    /// Axis-size resolution failed.
    AxisSizeResolutionError(AxisSizeResolutionError),
    /// Two tensor slots share one identifier.
    DuplicateTensorId(TensorId),
    /// The interface declares no input tensors.
    EmptyInputs,
    /// The interface declares no output tensors.
    EmptyOutputs,
    /// A processing step references a tensor id that no slot declares.
    InvalidTensorReference { reference: TensorId },
}

/// The `(qualified id, size)` pairs that the axes of one input tensor
/// contribute to resolution; axes with no size concept contribute nothing.
pub open spec fn input_axis_entries(tid: Seq<char>, axes: Seq<InputAxis>) -> Seq<
    (QidView, SizeView),
>
    decreases axes.len(),
{
    if axes.len() == 0 {
        Seq::empty()
    } else {
        input_axis_entries(tid, axes.drop_last()) + match axes.last().spec_size() {
            Some(sv) => seq![(QidView { tensor: tid, axis: axes.last().spec_id() }, sv)],
            None => Seq::empty(),
        }
    }
}

/// The `(qualified id, size)` pairs contributed by a list of input slots.
pub open spec fn input_slots_entries(slots: Seq<InputSlot>) -> Seq<(QidView, SizeView)>
    decreases slots.len(),
{
    if slots.len() == 0 {
        Seq::empty()
    } else {
        input_slots_entries(slots.drop_last()) + input_axis_entries(
            slots.last().spec_id(),
            slots.last().spec_axes(),
        )
    }
}

/// The `(qualified id, size)` pairs that the axes of one output tensor
/// contribute to resolution.
pub open spec fn output_axis_entries(tid: Seq<char>, axes: Seq<OutputAxis>) -> Seq<
    (QidView, SizeView),
>
    decreases axes.len(),
{
    if axes.len() == 0 {
        Seq::empty()
    } else {
        output_axis_entries(tid, axes.drop_last()) + match axes.last().spec_size() {
            Some(sv) => seq![(QidView { tensor: tid, axis: axes.last().spec_id() }, sv)],
            None => Seq::empty(),
        }
    }
}

/// The `(qualified id, size)` pairs contributed by a list of output slots.
pub open spec fn output_slots_entries(slots: Seq<OutputSlot>) -> Seq<(QidView, SizeView)>
    decreases slots.len(),
{
    if slots.len() == 0 {
        Seq::empty()
    } else {
        output_slots_entries(slots.drop_last()) + output_axis_entries(
            slots.last().spec_id(),
            slots.last().spec_axes(),
        )
    }
}

/// Every `(qualified id, size)` pair of the whole interface, inputs first,
/// each slot's axes in declared order.
pub open spec fn collected_entries(inputs: Seq<InputSlot>, outputs: Seq<OutputSlot>) -> Seq<
    (QidView, SizeView),
> {
    input_slots_entries(inputs) + output_slots_entries(outputs)
}

/// The mapping that a sequence of `(qualified id, size)` pairs denotes.
pub open spec fn view_map_of(s: Seq<(QidView, SizeView)>) -> Map<QidView, SizeView>
    decreases s.len(),
{
    if s.len() == 0 {
        Map::empty()
    } else {
        view_map_of(s.drop_last()).insert(s.last().0, s.last().1)
    }
}

/// The declared size mapping of the whole interface.
pub open spec fn decl_of(inputs: Seq<InputSlot>, outputs: Seq<OutputSlot>) -> Map<
    QidView,
    SizeView,
> {
    view_map_of(collected_entries(inputs, outputs))
}

/// The tensor identifier texts of the input slots, in order.
pub open spec fn input_ids(inputs: Seq<InputSlot>) -> Seq<Seq<char>> {
    inputs.map_values(|s: InputSlot| s.spec_id())
}

/// The tensor identifier texts of the whole interface: inputs, then
/// outputs.
pub open spec fn all_ids(inputs: Seq<InputSlot>, outputs: Seq<OutputSlot>) -> Seq<Seq<char>> {
    input_ids(inputs) + outputs.map_values(|s: OutputSlot| s.spec_id())
}

/// Some identifier occurs twice in the list.
pub open spec fn has_dup(ids: Seq<Seq<char>>) -> bool {
    exists|i: int, j: int| 0 <= i < j < ids.len() && ids[i] == ids[j]
}

/// Position `j` holds the first repeated identifier of the list: it repeats
/// an earlier one, and everything before it is still duplicate-free.
pub open spec fn first_dup_id_at(ids: Seq<Seq<char>>, j: int) -> bool {
    &&& 0 <= j < ids.len()
    &&& exists|i: int| 0 <= i < j && ids[i] == ids[j]
    &&& forall|a: int, b: int| 0 <= a < b < j ==> ids[a] != ids[b]
}

/// Every axis of the whole interface names a distinct qualified id.
pub open spec fn distinct_entry_keys(inputs: Seq<InputSlot>, outputs: Seq<OutputSlot>) -> bool {
    forall|i: int, j: int|
        0 <= i < j < collected_entries(inputs, outputs).len() ==> collected_entries(
            inputs,
            outputs,
        )[i].0 != collected_entries(inputs, outputs)[j].0
}

/// Every declared size is well formed (parameterized steps are positive).
pub open spec fn sizes_wf(inputs: Seq<InputSlot>, outputs: Seq<OutputSlot>) -> bool {
    forall|k: int|
        0 <= k < collected_entries(inputs, outputs).len() ==> size_view_wf(
            #[trigger] collected_entries(inputs, outputs)[k].1,
        )
}

/// Every declared qualified id can be resolved.
pub open spec fn resolution_ok(m: Map<QidView, SizeView>) -> bool {
    forall|id: QidView| #[trigger] m.dom().contains(id) ==> solvable(m, id)
}

/// The sample shape of one input slot fits its declared axes, given the
/// declared mapping `m`: the tensor has at least as many dimensions as
/// declared axes, and wherever an axis carries a size, the resolved size
/// admits the dimension's extent.
pub open spec fn input_slot_shape_ok(slot: InputSlot, m: Map<QidView, SizeView>) -> bool {
    &&& slot.spec_axes().len() <= slot.test_tensor.shape@.len()
    &&& forall|i: int|
        0 <= i < slot.spec_axes().len() && slot.spec_axes()[i].spec_size() is Some
            ==> forall|rv: ResolvedView|
            resolves_to(m, slot.spec_qid(i), rv) ==> compatible(
                rv,
                #[trigger] slot.test_tensor.shape@[i] as int,
            )
}

/// The sample shape of one output slot fits its declared axes.
pub open spec fn output_slot_shape_ok(slot: OutputSlot, m: Map<QidView, SizeView>) -> bool {
    &&& slot.spec_axes().len() <= slot.test_tensor.shape@.len()
    &&& forall|i: int|
        0 <= i < slot.spec_axes().len() && slot.spec_axes()[i].spec_size() is Some
            ==> forall|rv: ResolvedView|
            resolves_to(m, slot.spec_qid(i), rv) ==> compatible(
                rv,
                #[trigger] slot.test_tensor.shape@[i] as int,
            )
}

/// Every tensor reference of an input pre-processing step names a tensor
/// of the interface.
pub open spec fn input_refs_ok(inputs: Seq<InputSlot>, outputs: Seq<OutputSlot>) -> bool {
    forall|s: int, p: int|
        0 <= s < inputs.len() && 0 <= p < inputs[s].tensor_meta.preprocessing@.len()
            ==> match (#[trigger] inputs[s].tensor_meta.preprocessing@[p]).spec_reference() {
            Some(t) => all_ids(inputs, outputs).contains(t),
            None => true,
        }
}

/// Every tensor reference of an output post-processing step names a tensor
/// of the interface.
pub open spec fn output_refs_ok(inputs: Seq<InputSlot>, outputs: Seq<OutputSlot>) -> bool {
    forall|s: int, p: int|
        0 <= s < outputs.len() && 0 <= p < outputs[s].tensor_meta.postprocessing@.len()
            ==> match (#[trigger] outputs[s].tensor_meta.postprocessing@[p]).spec_reference() {
            Some(t) => all_ids(inputs, outputs).contains(t),
            None => true,
        }
}

/// Every sample shape of the interface fits its resolved axis sizes.
pub open spec fn shapes_ok(
    inputs: Seq<InputSlot>,
    outputs: Seq<OutputSlot>,
    m: Map<QidView, SizeView>,
) -> bool {
    &&& forall|s: int| 0 <= s < inputs.len() ==> input_slot_shape_ok(#[trigger] inputs[s], m)
    &&& forall|s: int| 0 <= s < outputs.len() ==> output_slot_shape_ok(#[trigger] outputs[s], m)
}

/// The qualified ids of the reference-declared entries, in order: the
/// resolver's initial waiting list for this interface.
pub open spec fn view_ref_keys(entries: Seq<(QidView, SizeView)>) -> Seq<QidView>
    decreases entries.len(),
{
    if entries.len() == 0 {
        Seq::empty()
    } else {
        view_ref_keys(entries.drop_last()) + match entries.last().1 {
            SizeView::Reference { target, offset } => seq![entries.last().0],
            _ => Seq::empty(),
        }
    }
}

/// Position `j` holds the first repeated qualified id among the collected
/// axis entries.
pub open spec fn first_entry_dup_at(entries: Seq<(QidView, SizeView)>, j: int) -> bool {
    &&& 0 <= j < entries.len()
    &&& exists|i: int| 0 <= i < j && entries[i].0 == entries[j].0
    &&& forall|a: int, b: int| 0 <= a < b < j ==> entries[a].0 != entries[b].0
}

/// Step `(s, p)` of the input pre-processing scan names the missing tensor
/// `t`, and every step scanned before it names only declared tensors.
pub open spec fn input_ref_blame(
    inputs: Seq<InputSlot>,
    outputs: Seq<OutputSlot>,
    t: Seq<char>,
) -> bool {
    exists|s: int, p: int|
        0 <= s < inputs.len() && 0 <= p < inputs[s].tensor_meta.preprocessing@.len() && (
        #[trigger] inputs[s].tensor_meta.preprocessing@[p]).spec_reference() == Some(t) && (forall|
            s2: int,
            p2: int,
        |
            0 <= s2 < inputs.len() && 0 <= p2 < inputs[s2].tensor_meta.preprocessing@.len() && (s2
                < s || (s2 == s && p2 < p)) ==> match (
            #[trigger] inputs[s2].tensor_meta.preprocessing@[p2]).spec_reference() {
                Some(t2) => all_ids(inputs, outputs).contains(t2),
                None => true,
            })
}

/// Step `(s, p)` of the output post-processing scan names the missing
/// tensor `t`, and every step scanned before it names only declared
/// tensors.
pub open spec fn output_ref_blame(
    inputs: Seq<InputSlot>,
    outputs: Seq<OutputSlot>,
    t: Seq<char>,
) -> bool {
    exists|s: int, p: int|
        0 <= s < outputs.len() && 0 <= p < outputs[s].tensor_meta.postprocessing@.len() && (
        #[trigger] outputs[s].tensor_meta.postprocessing@[p]).spec_reference() == Some(t) && (
        forall|s2: int, p2: int|
            0 <= s2 < outputs.len() && 0 <= p2 < outputs[s2].tensor_meta.postprocessing@.len() && (
            s2 < s || (s2 == s && p2 < p)) ==> match (
            #[trigger] outputs[s2].tensor_meta.postprocessing@[p2]).spec_reference() {
                Some(t2) => all_ids(inputs, outputs).contains(t2),
                None => true,
            })
}

/// Everything `ModelInterface::try_build` checks, in one predicate: both
/// lists are nonempty, tensor ids are unique, axis declarations are unique
/// and resolvable, every sample shape fits its resolved sizes, and every
/// processing-step reference names an existing tensor.
pub open spec fn build_ok(inputs: Seq<InputSlot>, outputs: Seq<OutputSlot>) -> bool {
    &&& inputs.len() > 0
    &&& outputs.len() > 0
    &&& !has_dup(all_ids(inputs, outputs))
    &&& distinct_entry_keys(inputs, outputs)
    &&& resolution_ok(decl_of(inputs, outputs))
    &&& forall|s: int|
        0 <= s < inputs.len() ==> input_slot_shape_ok(#[trigger] inputs[s], decl_of(inputs, outputs))
    &&& forall|s: int|
        0 <= s < outputs.len() ==> output_slot_shape_ok(
            #[trigger] outputs[s],
            decl_of(inputs, outputs),
        )
    &&& input_refs_ok(inputs, outputs)
    &&& output_refs_ok(inputs, outputs)
}

/// The views of a collected list of exec `(id, size)` pairs.
pub open spec fn pair_views(s: Seq<(QualifiedAxisId, AnyAxisSize)>) -> Seq<(QidView, SizeView)> {
    s.map_values(|p: (QualifiedAxisId, AnyAxisSize)| (p.0@, p.1@))
}

/// The mapping denoted by exec pairs is the mapping denoted by their views.
proof fn lemma_map_of_pair_views(s: Seq<(QualifiedAxisId, AnyAxisSize)>)
    ensures
        crate::axis_size_resolver::map_of(s) == view_map_of(pair_views(s)),
    decreases s.len(),
{
    if s.len() == 0 {
        assert(crate::axis_size_resolver::map_of(s) =~= view_map_of(pair_views(s)));
    } else {
        lemma_map_of_pair_views(s.drop_last());
        assert(pair_views(s.drop_last()) =~= pair_views(s).drop_last());
        assert(pair_views(s).last() == (s.last().0@, s.last().1@));
        assert(crate::axis_size_resolver::map_of(s) =~= view_map_of(pair_views(s)));
    }
}

/// The keys of a sequence of `(qualified id, size)` pairs, in order.
pub open spec fn view_keys(s: Seq<(QidView, SizeView)>) -> Seq<QidView> {
    s.map_values(|p: (QidView, SizeView)| p.0)
}

/// The reference-declared keys of exec pairs are those of their views.
proof fn lemma_ref_keys_pair_views(s: Seq<(QualifiedAxisId, AnyAxisSize)>)
    ensures
        crate::axis_size_resolver::ref_keys(s) == view_ref_keys(pair_views(s)),
    decreases s.len(),
{
    if s.len() == 0 {
        assert(crate::axis_size_resolver::ref_keys(s) =~= view_ref_keys(pair_views(s)));
    } else {
        lemma_ref_keys_pair_views(s.drop_last());
        assert(pair_views(s.drop_last()) =~= pair_views(s).drop_last());
        assert(pair_views(s).last() == (s.last().0@, s.last().1@));
        assert(crate::axis_size_resolver::ref_keys(s) =~= view_ref_keys(pair_views(s)));
    }
}

/// Membership in the denoted mapping is membership among the pair keys.
proof fn lemma_view_map_of_dom(s: Seq<(QidView, SizeView)>)
    ensures
        view_map_of(s).dom() == view_keys(s).to_set(),
    decreases s.len(),
{
    if s.len() == 0 {
        assert(view_map_of(s).dom() =~= view_keys(s).to_set());
    } else {
        lemma_view_map_of_dom(s.drop_last());
        assert(view_keys(s.drop_last()) =~= view_keys(s).drop_last());
        assert forall|x: QidView| #[trigger] view_keys(s).contains(x) implies view_map_of(
            s,
        ).dom().contains(x) by {
            let i = choose|i: int| 0 <= i < view_keys(s).len() && view_keys(s)[i] == x;
            if i < s.len() - 1 {
                assert(view_keys(s).drop_last()[i] == x);
                assert(view_keys(s).drop_last().contains(x));
            }
        }
        assert forall|x: QidView| #[trigger] view_map_of(s).dom().contains(x) implies view_keys(
            s,
        ).contains(x) by {
            if x == s.last().0 {
                assert(view_keys(s)[s.len() - 1] == x);
            } else {
                assert(view_keys(s).drop_last().contains(x));
                let i = choose|i: int|
                    0 <= i < view_keys(s).drop_last().len() && view_keys(s).drop_last()[i] == x;
                assert(view_keys(s)[i] == x);
            }
        }
        assert(view_map_of(s).dom() =~= view_keys(s).to_set());
    }
}

/// Every binding of the denoted mapping comes from some pair of the list.
proof fn lemma_view_map_of_values(s: Seq<(QidView, SizeView)>)
    ensures
        forall|x: QidView|
            #[trigger] view_map_of(s).dom().contains(x) ==> exists|k: int|
                0 <= k < s.len() && #[trigger] s[k] == (x, view_map_of(s)[x]),
    decreases s.len(),
{
    if s.len() > 0 {
        lemma_view_map_of_values(s.drop_last());
        assert forall|x: QidView| #[trigger] view_map_of(s).dom().contains(x) implies exists|
            k: int,
        | 0 <= k < s.len() && #[trigger] s[k] == (x, view_map_of(s)[x]) by {
            if x == s.last().0 {
                assert(s[s.len() - 1] == (x, view_map_of(s)[x]));
            } else {
                assert(view_map_of(s.drop_last()).dom().contains(x));
                let k = choose|k: int|
                    0 <= k < s.drop_last().len() && #[trigger] s.drop_last()[k] == (
                    x,
                    view_map_of(s.drop_last())[x],
                    );
                assert(s[k] == (x, view_map_of(s)[x]));
            }
        }
    }
}

/// Collects every `(qualified id, size)` pair of the interface, inputs
/// first, each slot's axes in declared order.
fn collect_sizes(inputs: &Vec<InputSlot>, outputs: &Vec<OutputSlot>) -> (r: Vec<
    (QualifiedAxisId, AnyAxisSize),
>)
    ensures
        pair_views(r@) == collected_entries(inputs@, outputs@),
{
    let mut out: Vec<(QualifiedAxisId, AnyAxisSize)> = Vec::new();
    proof {
        assert(pair_views(out@) =~= input_slots_entries(inputs@.take(0)));
    }
    let n_in = inputs.len();
    for s in 0..n_in
        invariant
            n_in == inputs@.len(),
            pair_views(out@) == input_slots_entries(inputs@.take(s as int)),
    {
        let slot = &inputs[s];
        let n_ax = slot.tensor_meta.axes.0.len();
        for i in 0..n_ax
            invariant
                n_in == inputs@.len(),
                s < n_in,
                slot == inputs@[s as int],
                n_ax == slot.spec_axes().len(),
                pair_views(out@) == input_slots_entries(inputs@.take(s as int))
                    + input_axis_entries(slot.spec_id(), slot.spec_axes().take(i as int)),
        {
            let ghost pre = pair_views(out@);
            let ghost axes_pre = slot.spec_axes().take(i as int);
            let ghost axes_now = slot.spec_axes().take(i as int + 1);
            proof {
                assert(axes_now.drop_last() =~= axes_pre);
                assert(axes_now.last() == slot.spec_axes()[i as int]);
            }
            let axis = &slot.tensor_meta.axes.0[i];
            match axis.size() {
                Some(size) => {
                    let qid = QualifiedAxisId {
                        tensor_id: slot.tensor_meta.id.clone(),
                        axis_id: axis.id(),
                    };
                    out.push((qid, size));
                    proof {
                        assert(pair_views(out@) =~= pre + seq![
                            (
                                QidView {
                                    tensor: slot.spec_id(),
                                    axis: slot.spec_axes()[i as int].spec_id(),
                                },
                                size@,
                            ),
                        ]);
                        assert(input_axis_entries(slot.spec_id(), axes_now)
                            == input_axis_entries(slot.spec_id(), axes_pre) + seq![
                            (
                                QidView {
                                    tensor: slot.spec_id(),
                                    axis: slot.spec_axes()[i as int].spec_id(),
                                },
                                size@,
                            ),
                        ]);
                        assert(pair_views(out@) =~= input_slots_entries(inputs@.take(s as int))
                            + input_axis_entries(slot.spec_id(), axes_now));
                    }
                },
                None => {
                    proof {
                        assert(input_axis_entries(slot.spec_id(), axes_now) =~= input_axis_entries(
                            slot.spec_id(),
                            axes_pre,
                        ));
                    }
                },
            }
        }
        proof {
            assert(slot.spec_axes().take(n_ax as int) =~= slot.spec_axes());
            assert(inputs@.take(s as int + 1).drop_last() =~= inputs@.take(s as int));
            assert(inputs@.take(s as int + 1).last() == inputs@[s as int]);
        }
    }
    proof {
        assert(inputs@.take(n_in as int) =~= inputs@);
        assert(output_slots_entries(outputs@.take(0)) =~= Seq::<(QidView, SizeView)>::empty());
        assert(pair_views(out@) =~= input_slots_entries(inputs@) + output_slots_entries(
            outputs@.take(0),
        ));
    }
    let n_out = outputs.len();
    for s in 0..n_out
        invariant
            n_out == outputs@.len(),
            pair_views(out@) == input_slots_entries(inputs@) + output_slots_entries(
                outputs@.take(s as int),
            ),
    {
        let slot = &outputs[s];
        let n_ax = slot.tensor_meta.axes.0.len();
        for i in 0..n_ax
            invariant
                n_out == outputs@.len(),
                s < n_out,
                slot == outputs@[s as int],
                n_ax == slot.spec_axes().len(),
                pair_views(out@) == input_slots_entries(inputs@) + (output_slots_entries(
                    outputs@.take(s as int),
                ) + output_axis_entries(slot.spec_id(), slot.spec_axes().take(i as int))),
        {
            let ghost pre = pair_views(out@);
            let ghost axes_pre = slot.spec_axes().take(i as int);
            let ghost axes_now = slot.spec_axes().take(i as int + 1);
            proof {
                assert(axes_now.drop_last() =~= axes_pre);
                assert(axes_now.last() == slot.spec_axes()[i as int]);
            }
            let axis = &slot.tensor_meta.axes.0[i];
            match axis.size() {
                Some(size) => {
                    let qid = QualifiedAxisId {
                        tensor_id: slot.tensor_meta.id.clone(),
                        axis_id: axis.id(),
                    };
                    out.push((qid, size));
                    proof {
                        assert(pair_views(out@) =~= pre + seq![
                            (
                                QidView {
                                    tensor: slot.spec_id(),
                                    axis: slot.spec_axes()[i as int].spec_id(),
                                },
                                size@,
                            ),
                        ]);
                        assert(output_axis_entries(slot.spec_id(), axes_now)
                            == output_axis_entries(slot.spec_id(), axes_pre) + seq![
                            (
                                QidView {
                                    tensor: slot.spec_id(),
                                    axis: slot.spec_axes()[i as int].spec_id(),
                                },
                                size@,
                            ),
                        ]);
                        assert(pair_views(out@) =~= input_slots_entries(inputs@)
                            + (output_slots_entries(outputs@.take(s as int))
                            + output_axis_entries(slot.spec_id(), axes_now)));
                    }
                },
                None => {
                    proof {
                        assert(output_axis_entries(slot.spec_id(), axes_now)
                            =~= output_axis_entries(slot.spec_id(), axes_pre));
                    }
                },
            }
        }
        proof {
            assert(slot.spec_axes().take(n_ax as int) =~= slot.spec_axes());
            assert(outputs@.take(s as int + 1).drop_last() =~= outputs@.take(s as int));
            assert(outputs@.take(s as int + 1).last() == outputs@[s as int]);
            assert(pair_views(out@) =~= input_slots_entries(inputs@) + output_slots_entries(
                outputs@.take(s as int + 1),
            ));
        }
    }
    proof {
        assert(outputs@.take(n_out as int) =~= outputs@);
    }
    out
}

/// The identifier texts of a list of tensor ids.
pub open spec fn tid_views(s: Seq<TensorId>) -> Seq<Seq<char>> {
    s.map_values(|t: TensorId| t@)
}

/// Finds the position of an id text in a list of tensor ids.
fn find_tensor_id(v: &Vec<TensorId>, id: &TensorId) -> (r: Option<usize>)
    ensures
        match r {
            Some(i) => i < v@.len() && v@[i as int]@ == id@,
            None => forall|j: int| 0 <= j < v@.len() ==> v@[j]@ != id@,
        },
{
    let n = v.len();
    for i in 0..n
        invariant
            n == v@.len(),
            forall|j: int| 0 <= j < i ==> v@[j]@ != id@,
    {
        if v[i].same_as(id) {
            return Some(i);
        }
    }
    None
}

/// Walks every tensor id of the interface, inputs first, and reports the
/// first id that repeats an earlier one.
fn check_duplicate_ids(inputs: &Vec<InputSlot>, outputs: &Vec<OutputSlot>) -> (r: Option<TensorId>)
    ensures
        match r {
            None => !has_dup(all_ids(inputs@, outputs@)),
            Some(id) => {
                let ids = all_ids(inputs@, outputs@);
                exists|j: int| #[trigger] first_dup_id_at(ids, j) && ids[j] == id@
            },
        },
{
    let ghost ids = all_ids(inputs@, outputs@);
    let mut seen: Vec<TensorId> = Vec::new();
    let n_in = inputs.len();
    proof {
        assert(tid_views(seen@) =~= ids.take(0));
    }
    for s in 0..n_in
        invariant
            n_in == inputs@.len(),
            ids == all_ids(inputs@, outputs@),
            seen@.len() == s,
            tid_views(seen@) == ids.take(s as int),
            forall|a: int, b: int| 0 <= a < b < s ==> ids[a] != ids[b],
    {
        let id = &inputs[s].tensor_meta.id;
        proof {
            assert(input_ids(inputs@)[s as int] == id@);
            assert(ids[s as int] == id@);
        }
        if let Some(i) = find_tensor_id(&seen, id) {
            proof {
                assert(tid_views(seen@)[i as int] == id@);
                assert(ids[i as int] == id@);
                assert(first_dup_id_at(ids, s as int));
            }
            return Some(id.clone());
        }
        let ghost pre = tid_views(seen@);
        seen.push(id.clone());
        proof {
            assert(tid_views(seen@) =~= pre.push(id@));
            assert(tid_views(seen@) =~= ids.take(s as int + 1));
            assert forall|a: int, b: int| 0 <= a < b < s + 1 implies ids[a] != ids[b] by {
                if b == s {
                    assert(pre[a] == ids[a]);
                }
            }
        }
    }
    let n_out = outputs.len();
    for s in 0..n_out
        invariant
            n_out == outputs@.len(),
            ids == all_ids(inputs@, outputs@),
            seen@.len() == inputs@.len() + s,
            tid_views(seen@) == ids.take(inputs@.len() + s),
            forall|a: int, b: int| 0 <= a < b < inputs@.len() + s ==> ids[a] != ids[b],
    {
        let id = &outputs[s].tensor_meta.id;
        let ghost k = inputs@.len() + s;
        proof {
            assert(ids[k] == id@);
        }
        if let Some(i) = find_tensor_id(&seen, id) {
            proof {
                assert(tid_views(seen@)[i as int] == id@);
                assert(ids[i as int] == id@);
                assert(first_dup_id_at(ids, k));
            }
            return Some(id.clone());
        }
        let ghost pre = tid_views(seen@);
        seen.push(id.clone());
        proof {
            assert(tid_views(seen@) =~= pre.push(id@));
            assert(tid_views(seen@) =~= ids.take(k + 1));
            assert forall|a: int, b: int| 0 <= a < b < k + 1 implies ids[a] != ids[b] by {
                if b == k {
                    assert(pre[a] == ids[a]);
                }
            }
        }
    }
    proof {
        assert(ids.take(inputs@.len() + n_out) =~= ids);
    }
    None
}

/// An element of either part of a concatenation is an element of the whole.
proof fn lemma_concat_contains(a: Seq<(QidView, SizeView)>, b: Seq<(QidView, SizeView)>, x: (
    QidView,
    SizeView,
))
    requires
        a.contains(x) || b.contains(x),
    ensures
        (a + b).contains(x),
{
    if a.contains(x) {
        let i = choose|i: int| 0 <= i < a.len() && a[i] == x;
        assert((a + b)[i] == x);
    } else {
        let i = choose|i: int| 0 <= i < b.len() && b[i] == x;
        assert((a + b)[a.len() + i] == x);
    }
}

/// An axis that declares a size contributes its qualified pair to its
/// tensor's entries.
proof fn lemma_input_axis_entry(tid: Seq<char>, axes: Seq<InputAxis>, i: int)
    requires
        0 <= i < axes.len(),
        axes[i].spec_size() is Some,
    ensures
        input_axis_entries(tid, axes).contains(
            (
                QidView { tensor: tid, axis: axes[i].spec_id() },
                axes[i].spec_size().unwrap(),
            ),
        ),
    decreases axes.len(),
{
    let pair = (QidView { tensor: tid, axis: axes[i].spec_id() }, axes[i].spec_size().unwrap());
    if i == axes.len() - 1 {
        let e = input_axis_entries(tid, axes);
        assert(e[e.len() - 1] == pair);
    } else {
        lemma_input_axis_entry(tid, axes.drop_last(), i);
        lemma_concat_contains(
            input_axis_entries(tid, axes.drop_last()),
            match axes.last().spec_size() {
                Some(sv) => seq![(QidView { tensor: tid, axis: axes.last().spec_id() }, sv)],
                None => Seq::empty(),
            },
            pair,
        );
    }
}

/// A tensor's entries are among the entries of the whole input list.
proof fn lemma_input_slots_entry(slots: Seq<InputSlot>, s: int, pair: (QidView, SizeView))
    requires
        0 <= s < slots.len(),
        input_axis_entries(slots[s].spec_id(), slots[s].spec_axes()).contains(pair),
    ensures
        input_slots_entries(slots).contains(pair),
    decreases slots.len(),
{
    if s == slots.len() - 1 {
        lemma_concat_contains(
            input_slots_entries(slots.drop_last()),
            input_axis_entries(slots.last().spec_id(), slots.last().spec_axes()),
            pair,
        );
    } else {
        lemma_input_slots_entry(slots.drop_last(), s, pair);
        lemma_concat_contains(
            input_slots_entries(slots.drop_last()),
            input_axis_entries(slots.last().spec_id(), slots.last().spec_axes()),
            pair,
        );
    }
}

/// An axis that declares a size contributes its qualified pair to its
/// tensor's entries.
proof fn lemma_output_axis_entry(tid: Seq<char>, axes: Seq<OutputAxis>, i: int)
    requires
        0 <= i < axes.len(),
        axes[i].spec_size() is Some,
    ensures
        output_axis_entries(tid, axes).contains(
            (
                QidView { tensor: tid, axis: axes[i].spec_id() },
                axes[i].spec_size().unwrap(),
            ),
        ),
    decreases axes.len(),
{
    let pair = (QidView { tensor: tid, axis: axes[i].spec_id() }, axes[i].spec_size().unwrap());
    if i == axes.len() - 1 {
        let e = output_axis_entries(tid, axes);
        assert(e[e.len() - 1] == pair);
    } else {
        lemma_output_axis_entry(tid, axes.drop_last(), i);
        lemma_concat_contains(
            output_axis_entries(tid, axes.drop_last()),
            match axes.last().spec_size() {
                Some(sv) => seq![(QidView { tensor: tid, axis: axes.last().spec_id() }, sv)],
                None => Seq::empty(),
            },
            pair,
        );
    }
}

/// A tensor's entries are among the entries of the whole output list.
proof fn lemma_output_slots_entry(slots: Seq<OutputSlot>, s: int, pair: (QidView, SizeView))
    requires
        0 <= s < slots.len(),
        output_axis_entries(slots[s].spec_id(), slots[s].spec_axes()).contains(pair),
    ensures
        output_slots_entries(slots).contains(pair),
    decreases slots.len(),
{
    if s == slots.len() - 1 {
        lemma_concat_contains(
            output_slots_entries(slots.drop_last()),
            output_axis_entries(slots.last().spec_id(), slots.last().spec_axes()),
            pair,
        );
    } else {
        lemma_output_slots_entry(slots.drop_last(), s, pair);
        lemma_concat_contains(
            output_slots_entries(slots.drop_last()),
            output_axis_entries(slots.last().spec_id(), slots.last().spec_axes()),
            pair,
        );
    }
}

/// A declared qualified id of an input axis is in the declared mapping.
proof fn lemma_input_qid_declared(
    inputs: Seq<InputSlot>,
    outputs: Seq<OutputSlot>,
    s: int,
    i: int,
)
    requires
        0 <= s < inputs.len(),
        0 <= i < inputs[s].spec_axes().len(),
        inputs[s].spec_axes()[i].spec_size() is Some,
    ensures
        decl_of(inputs, outputs).dom().contains(inputs[s].spec_qid(i)),
{
    let pair = (inputs[s].spec_qid(i), inputs[s].spec_axes()[i].spec_size().unwrap());
    lemma_input_axis_entry(inputs[s].spec_id(), inputs[s].spec_axes(), i);
    lemma_input_slots_entry(inputs, s, pair);
    lemma_concat_contains(input_slots_entries(inputs), output_slots_entries(outputs), pair);
    lemma_view_map_of_dom(collected_entries(inputs, outputs));
    let e = collected_entries(inputs, outputs);
    let k = choose|k: int| 0 <= k < e.len() && e[k] == pair;
    assert(view_keys(e)[k] == pair.0);
    assert(view_keys(e).contains(pair.0));
}

/// A declared qualified id of an output axis is in the declared mapping.
proof fn lemma_output_qid_declared(
    inputs: Seq<InputSlot>,
    outputs: Seq<OutputSlot>,
    s: int,
    i: int,
)
    requires
        0 <= s < outputs.len(),
        0 <= i < outputs[s].spec_axes().len(),
        outputs[s].spec_axes()[i].spec_size() is Some,
    ensures
        decl_of(inputs, outputs).dom().contains(outputs[s].spec_qid(i)),
{
    let pair = (outputs[s].spec_qid(i), outputs[s].spec_axes()[i].spec_size().unwrap());
    lemma_output_axis_entry(outputs[s].spec_id(), outputs[s].spec_axes(), i);
    lemma_output_slots_entry(outputs, s, pair);
    lemma_concat_contains(input_slots_entries(inputs), output_slots_entries(outputs), pair);
    lemma_view_map_of_dom(collected_entries(inputs, outputs));
    let e = collected_entries(inputs, outputs);
    let k = choose|k: int| 0 <= k < e.len() && e[k] == pair;
    assert(view_keys(e)[k] == pair.0);
    assert(view_keys(e).contains(pair.0));
}

/// Copies a sample shape.
fn clone_shape(v: &Vec<usize>) -> (r: Vec<usize>)
    ensures
        r@ == v@,
{
    let r = v.clone();
    proof {
        assert forall|i: int| 0 <= i < v@.len() implies r@[i] == v@[i] by {
            assert(vstd::pervasive::cloned::<usize>(v@[i], r@[i]));
        }
        assert(r@ =~= v@);
    }
    r
}


/// The verdict of scanning the input slots in order against the resolved
/// sizes: some slot is the first whose sample shape fails, and the error
/// blames it the way the scan does — a missing dimension, or the first
/// sized axis whose resolved size rejects the sample extent.
pub open spec fn input_shape_blame(
    inputs: Seq<InputSlot>,
    m: Map<QidView, SizeView>,
    e: TensorValidationError,
) -> bool {
    exists|s: int|
        0 <= s < inputs.len() && !input_slot_shape_ok(#[trigger] inputs[s], m) && (forall|s2: int|
            0 <= s2 < s ==> input_slot_shape_ok(#[trigger] inputs[s2], m)) && {
            let slot = inputs[s];
            match e {
                TensorValidationError::MismatchedNumDimensions {
                    test_tensor_shape,
                    num_described_axes,
                } => {
                    &&& slot.spec_axes().len() > slot.test_tensor.shape@.len()
                    &&& test_tensor_shape@ == slot.test_tensor.shape@
                    &&& num_described_axes == slot.spec_axes().len()
                },
                TensorValidationError::IncompatibleAxis {
                    qualified_axis_id,
                    test_tensor_dim_size,
                    test_tensor_dim_index,
                } => {
                    let i = test_tensor_dim_index as int;
                    &&& slot.spec_axes().len() <= slot.test_tensor.shape@.len()
                    &&& 0 <= i < slot.spec_axes().len()
                    &&& slot.spec_axes()[i].spec_size() is Some
                    &&& qualified_axis_id@ == slot.spec_qid(i)
                    &&& test_tensor_dim_size == slot.test_tensor.shape@[i]
                    &&& solvable(m, slot.spec_qid(i))
                    &&& !(forall|rv: ResolvedView|
                        resolves_to(m, slot.spec_qid(i), rv) ==> compatible(
                            rv,
                            test_tensor_dim_size as int,
                        ))
                    &&& forall|i2: int|
                        0 <= i2 < i && (#[trigger] slot.spec_axes()[i2]).spec_size() is Some
                            ==> forall|rv: ResolvedView|
                            resolves_to(m, slot.spec_qid(i2), rv) ==> compatible(
                                rv,
                                slot.test_tensor.shape@[i2] as int,
                            )
                },
                _ => false,
            }
        }
}

/// The verdict of scanning the output slots in order against the resolved
/// sizes, blamed the same way as for inputs.
pub open spec fn output_shape_blame(
    outputs: Seq<OutputSlot>,
    m: Map<QidView, SizeView>,
    e: TensorValidationError,
) -> bool {
    exists|s: int|
        0 <= s < outputs.len() && !output_slot_shape_ok(#[trigger] outputs[s], m) && (forall|
            s2: int,
        |
            0 <= s2 < s ==> output_slot_shape_ok(#[trigger] outputs[s2], m)) && {
            let slot = outputs[s];
            match e {
                TensorValidationError::MismatchedNumDimensions {
                    test_tensor_shape,
                    num_described_axes,
                } => {
                    &&& slot.spec_axes().len() > slot.test_tensor.shape@.len()
                    &&& test_tensor_shape@ == slot.test_tensor.shape@
                    &&& num_described_axes == slot.spec_axes().len()
                },
                TensorValidationError::IncompatibleAxis {
                    qualified_axis_id,
                    test_tensor_dim_size,
                    test_tensor_dim_index,
                } => {
                    let i = test_tensor_dim_index as int;
                    &&& slot.spec_axes().len() <= slot.test_tensor.shape@.len()
                    &&& 0 <= i < slot.spec_axes().len()
                    &&& slot.spec_axes()[i].spec_size() is Some
                    &&& qualified_axis_id@ == slot.spec_qid(i)
                    &&& test_tensor_dim_size == slot.test_tensor.shape@[i]
                    &&& solvable(m, slot.spec_qid(i))
                    &&& !(forall|rv: ResolvedView|
                        resolves_to(m, slot.spec_qid(i), rv) ==> compatible(
                            rv,
                            test_tensor_dim_size as int,
                        ))
                    &&& forall|i2: int|
                        0 <= i2 < i && (#[trigger] slot.spec_axes()[i2]).spec_size() is Some
                            ==> forall|rv: ResolvedView|
                            resolves_to(m, slot.spec_qid(i2), rv) ==> compatible(
                                rv,
                                slot.test_tensor.shape@[i2] as int,
                            )
                },
                _ => false,
            }
        }
}

/// Walks the input slots and checks every sample shape against the resolved
/// axis sizes, dimension by dimension; batch-like axes consume a dimension
/// without constraining it.
fn check_input_shapes(
    inputs: &Vec<InputSlot>,
    sizes: &crate::axis_size_resolver::ResolvedSizeMap,
    Ghost(m): Ghost<Map<QidView, SizeView>>,
) -> (r: Result<(), TensorValidationError>)
    requires
        sizes.inv(),
        sizes@.dom() == m.dom(),
        forall|id: QidView| #[trigger] m.dom().contains(id) ==> resolves_to(m, id, sizes@[id]),
        forall|id: QidView| #[trigger] m.dom().contains(id) ==> size_view_wf(m[id]),
        forall|s: int, i: int|
            0 <= s < inputs@.len() && 0 <= i < inputs@[s].spec_axes().len() && (
            #[trigger] inputs@[s].spec_axes()[i]).spec_size() is Some ==> m.dom().contains(
                inputs@[s].spec_qid(i),
            ),
    ensures
        match r {
            Ok(_) => forall|s: int|
                0 <= s < inputs@.len() ==> input_slot_shape_ok(#[trigger] inputs@[s], m),
            Err(e) => input_shape_blame(inputs@, m, e),
        },
{
    let n = inputs.len();
    for s in 0..n
        invariant
            n == inputs@.len(),
            sizes.inv(),
            sizes@.dom() == m.dom(),
            forall|id: QidView| #[trigger] m.dom().contains(id) ==> resolves_to(m, id, sizes@[id]),
            forall|id: QidView| #[trigger] m.dom().contains(id) ==> size_view_wf(m[id]),
            forall|s2: int, i: int|
                0 <= s2 < inputs@.len() && 0 <= i < inputs@[s2].spec_axes().len() && (
                #[trigger] inputs@[s2].spec_axes()[i]).spec_size() is Some ==> m.dom().contains(
                    inputs@[s2].spec_qid(i),
                ),
            forall|s2: int| 0 <= s2 < s ==> input_slot_shape_ok(#[trigger] inputs@[s2], m),
    {
        let slot = &inputs[s];
        let n_ax = slot.tensor_meta.axes.0.len();
        let n_dim = slot.test_tensor.shape.len();
        if n_ax > n_dim {
            let shape = clone_shape(&slot.test_tensor.shape);
            proof {
                assert(!input_slot_shape_ok(inputs@[s as int], m));
            }
            return Err(
                TensorValidationError::MismatchedNumDimensions {
                    test_tensor_shape: shape,
                    num_described_axes: n_ax,
                },
            );
        }
        for i in 0..n_ax
            invariant
                n == inputs@.len(),
                s < n,
                slot == inputs@[s as int],
                n_ax == slot.spec_axes().len(),
                n_dim == slot.test_tensor.shape@.len(),
                n_ax <= n_dim,
                sizes.inv(),
                sizes@.dom() == m.dom(),
                forall|id: QidView| #[trigger] m.dom().contains(id) ==> resolves_to(
                    m,
                    id,
                    sizes@[id],
                ),
                forall|id: QidView| #[trigger] m.dom().contains(id) ==> size_view_wf(m[id]),
                forall|s2: int, i2: int|
                    0 <= s2 < inputs@.len() && 0 <= i2 < inputs@[s2].spec_axes().len() && (
                    #[trigger] inputs@[s2].spec_axes()[i2]).spec_size() is Some
                        ==> m.dom().contains(inputs@[s2].spec_qid(i2)),
                forall|s2: int| 0 <= s2 < s ==> input_slot_shape_ok(#[trigger] inputs@[s2], m),
                forall|i2: int|
                    0 <= i2 < i && (#[trigger] slot.spec_axes()[i2]).spec_size() is Some
                        ==> forall|rv: ResolvedView|
                        resolves_to(m, slot.spec_qid(i2), rv) ==> compatible(
                            rv,
                            slot.test_tensor.shape@[i2] as int,
                        ),
        {
            let axis = &slot.tensor_meta.axes.0[i];
            if axis.size().is_some() {
                let qid = QualifiedAxisId {
                    tensor_id: slot.tensor_meta.id.clone(),
                    axis_id: axis.id(),
                };
                proof {
                    assert(qid@ == slot.spec_qid(i as int));
                    assert(m.dom().contains(qid@));
                }
                let resolved = match sizes.get(&qid) {
                    Some(v) => v,
                    None => {
                        // Every declared qualified id is bound in the
                        // resolved mapping, so this arm cannot be taken.
                        proof {
                            assert(false);
                        }
                        return Ok(());
                    },
                };
                proof {
                    assert(resolves_to(m, qid@, resolved@));
                    crate::axis_size_resolver::lemma_resolution_preserves_wf(m, qid@, resolved@);
                }
                let extent = slot.test_tensor.shape[i];
                if !resolved.is_compatible_with_extent(extent) {
                    proof {
                        assert(!input_slot_shape_ok(inputs@[s as int], m)) by {
                            if input_slot_shape_ok(inputs@[s as int], m) {
                                assert(compatible(resolved@, extent as int));
                            }
                        }
                        assert(resolves_to(m, inputs@[s as int].spec_qid(i as int), resolved@));
                        assert(solvable(m, inputs@[s as int].spec_qid(i as int)));
                        assert(extent == inputs@[s as int].test_tensor.shape@[i as int]);
                        assert(!(forall|rv: ResolvedView|
                            resolves_to(m, inputs@[s as int].spec_qid(i as int), rv)
                                ==> compatible(rv, extent as int))) by {
                            if (forall|rv: ResolvedView|
                                resolves_to(m, inputs@[s as int].spec_qid(i as int), rv)
                                    ==> compatible(rv, extent as int)) {
                                assert(compatible(resolved@, extent as int));
                            }
                        }
                        let slot0 = inputs@[s as int];
                        assert(slot0.spec_axes().len() <= slot0.test_tensor.shape@.len());
                        assert(forall|i2: int|
                            0 <= i2 < i as int && (#[trigger] slot0.spec_axes()[i2]).spec_size()
                                is Some ==> forall|rv: ResolvedView|
                                resolves_to(m, slot0.spec_qid(i2), rv) ==> compatible(
                                    rv,
                                    slot0.test_tensor.shape@[i2] as int,
                                ));
                        assert(input_shape_blame(
                            inputs@,
                            m,
                            TensorValidationError::IncompatibleAxis {
                                qualified_axis_id: qid,
                                test_tensor_dim_size: extent,
                                test_tensor_dim_index: i,
                            },
                        ));
                    }
                    return Err(
                        TensorValidationError::IncompatibleAxis {
                            qualified_axis_id: qid,
                            test_tensor_dim_size: extent,
                            test_tensor_dim_index: i,
                        },
                    );
                }
                proof {
                    assert forall|rv: ResolvedView|
                        resolves_to(m, slot.spec_qid(i as int), rv) implies compatible(
                        rv,
                        slot.test_tensor.shape@[i as int] as int,
                    ) by {
                        let n1 = choose|n1: nat|
                            crate::axis_size_resolver::resolve_fuel(m, qid@, n1) == Some(rv);
                        let n2 = choose|n2: nat|
                            crate::axis_size_resolver::resolve_fuel(m, qid@, n2) == Some(
                                resolved@,
                            );
                        crate::axis_size_resolver::lemma_resolution_unique(m, qid@, n1, n2);
                    }
                }
            }
        }
    }
    Ok(())
}

/// Walks the output slots and checks every sample shape against the resolved
/// axis sizes, dimension by dimension; batch-like axes consume a dimension
/// without constraining it.
fn check_output_shapes(
    outputs: &Vec<OutputSlot>,
    sizes: &crate::axis_size_resolver::ResolvedSizeMap,
    Ghost(m): Ghost<Map<QidView, SizeView>>,
) -> (r: Result<(), TensorValidationError>)
    requires
        sizes.inv(),
        sizes@.dom() == m.dom(),
        forall|id: QidView| #[trigger] m.dom().contains(id) ==> resolves_to(m, id, sizes@[id]),
        forall|id: QidView| #[trigger] m.dom().contains(id) ==> size_view_wf(m[id]),
        forall|s: int, i: int|
            0 <= s < outputs@.len() && 0 <= i < outputs@[s].spec_axes().len() && (
            #[trigger] outputs@[s].spec_axes()[i]).spec_size() is Some ==> m.dom().contains(
                outputs@[s].spec_qid(i),
            ),
    ensures
        match r {
            Ok(_) => forall|s: int|
                0 <= s < outputs@.len() ==> output_slot_shape_ok(#[trigger] outputs@[s], m),
            Err(e) => output_shape_blame(outputs@, m, e),
        },
{
    let n = outputs.len();
    for s in 0..n
        invariant
            n == outputs@.len(),
            sizes.inv(),
            sizes@.dom() == m.dom(),
            forall|id: QidView| #[trigger] m.dom().contains(id) ==> resolves_to(m, id, sizes@[id]),
            forall|id: QidView| #[trigger] m.dom().contains(id) ==> size_view_wf(m[id]),
            forall|s2: int, i: int|
                0 <= s2 < outputs@.len() && 0 <= i < outputs@[s2].spec_axes().len() && (
                #[trigger] outputs@[s2].spec_axes()[i]).spec_size() is Some ==> m.dom().contains(
                    outputs@[s2].spec_qid(i),
                ),
            forall|s2: int| 0 <= s2 < s ==> output_slot_shape_ok(#[trigger] outputs@[s2], m),
    {
        let slot = &outputs[s];
        let n_ax = slot.tensor_meta.axes.0.len();
        let n_dim = slot.test_tensor.shape.len();
        if n_ax > n_dim {
            let shape = clone_shape(&slot.test_tensor.shape);
            proof {
                assert(!output_slot_shape_ok(outputs@[s as int], m));
            }
            return Err(
                TensorValidationError::MismatchedNumDimensions {
                    test_tensor_shape: shape,
                    num_described_axes: n_ax,
                },
            );
        }
        for i in 0..n_ax
            invariant
                n == outputs@.len(),
                s < n,
                slot == outputs@[s as int],
                n_ax == slot.spec_axes().len(),
                n_dim == slot.test_tensor.shape@.len(),
                n_ax <= n_dim,
                sizes.inv(),
                sizes@.dom() == m.dom(),
                forall|id: QidView| #[trigger] m.dom().contains(id) ==> resolves_to(
                    m,
                    id,
                    sizes@[id],
                ),
                forall|id: QidView| #[trigger] m.dom().contains(id) ==> size_view_wf(m[id]),
                forall|s2: int, i2: int|
                    0 <= s2 < outputs@.len() && 0 <= i2 < outputs@[s2].spec_axes().len() && (
                    #[trigger] outputs@[s2].spec_axes()[i2]).spec_size() is Some
                        ==> m.dom().contains(outputs@[s2].spec_qid(i2)),
                forall|s2: int| 0 <= s2 < s ==> output_slot_shape_ok(
                    #[trigger] outputs@[s2],
                    m,
                ),
                forall|i2: int|
                    0 <= i2 < i && (#[trigger] slot.spec_axes()[i2]).spec_size() is Some
                        ==> forall|rv: ResolvedView|
                        resolves_to(m, slot.spec_qid(i2), rv) ==> compatible(
                            rv,
                            slot.test_tensor.shape@[i2] as int,
                        ),
        {
            let axis = &slot.tensor_meta.axes.0[i];
            if axis.size().is_some() {
                let qid = QualifiedAxisId {
                    tensor_id: slot.tensor_meta.id.clone(),
                    axis_id: axis.id(),
                };
                proof {
                    assert(qid@ == slot.spec_qid(i as int));
                    assert(m.dom().contains(qid@));
                }
                let resolved = match sizes.get(&qid) {
                    Some(v) => v,
                    None => {
                        // Every declared qualified id is bound in the
                        // resolved mapping, so this arm cannot be taken.
                        proof {
                            assert(false);
                        }
                        return Ok(());
                    },
                };
                proof {
                    assert(resolves_to(m, qid@, resolved@));
                    crate::axis_size_resolver::lemma_resolution_preserves_wf(m, qid@, resolved@);
                }
                let extent = slot.test_tensor.shape[i];
                if !resolved.is_compatible_with_extent(extent) {
                    proof {
                        assert(!output_slot_shape_ok(outputs@[s as int], m)) by {
                            if output_slot_shape_ok(outputs@[s as int], m) {
                                assert(compatible(resolved@, extent as int));
                            }
                        }
                        assert(resolves_to(m, outputs@[s as int].spec_qid(i as int), resolved@));
                        assert(solvable(m, outputs@[s as int].spec_qid(i as int)));
                        assert(extent == outputs@[s as int].test_tensor.shape@[i as int]);
                        assert(!(forall|rv: ResolvedView|
                            resolves_to(m, outputs@[s as int].spec_qid(i as int), rv)
                                ==> compatible(rv, extent as int))) by {
                            if (forall|rv: ResolvedView|
                                resolves_to(m, outputs@[s as int].spec_qid(i as int), rv)
                                    ==> compatible(rv, extent as int)) {
                                assert(compatible(resolved@, extent as int));
                            }
                        }
                        let slot0 = outputs@[s as int];
                        assert(slot0.spec_axes().len() <= slot0.test_tensor.shape@.len());
                        assert(forall|i2: int|
                            0 <= i2 < i as int && (#[trigger] slot0.spec_axes()[i2]).spec_size()
                                is Some ==> forall|rv: ResolvedView|
                                resolves_to(m, slot0.spec_qid(i2), rv) ==> compatible(
                                    rv,
                                    slot0.test_tensor.shape@[i2] as int,
                                ));
                        assert(output_shape_blame(
                            outputs@,
                            m,
                            TensorValidationError::IncompatibleAxis {
                                qualified_axis_id: qid,
                                test_tensor_dim_size: extent,
                                test_tensor_dim_index: i,
                            },
                        ));
                    }
                    return Err(
                        TensorValidationError::IncompatibleAxis {
                            qualified_axis_id: qid,
                            test_tensor_dim_size: extent,
                            test_tensor_dim_index: i,
                        },
                    );
                }
                proof {
                    assert forall|rv: ResolvedView|
                        resolves_to(m, slot.spec_qid(i as int), rv) implies compatible(
                        rv,
                        slot.test_tensor.shape@[i as int] as int,
                    ) by {
                        let n1 = choose|n1: nat|
                            crate::axis_size_resolver::resolve_fuel(m, qid@, n1) == Some(rv);
                        let n2 = choose|n2: nat|
                            crate::axis_size_resolver::resolve_fuel(m, qid@, n2) == Some(
                                resolved@,
                            );
                        crate::axis_size_resolver::lemma_resolution_unique(m, qid@, n1, n2);
                    }
                }
            }
        }
    }
    Ok(())
}

/// Whether `id` names any tensor of the interface, input or output.
fn all_ids_contain(inputs: &Vec<InputSlot>, outputs: &Vec<OutputSlot>, id: &TensorId) -> (r: bool)
    ensures
        r == all_ids(inputs@, outputs@).contains(id@),
{
    let ghost ids = all_ids(inputs@, outputs@);
    let n_in = inputs.len();
    for s in 0..n_in
        invariant
            n_in == inputs@.len(),
            ids == all_ids(inputs@, outputs@),
            forall|j: int| 0 <= j < s ==> ids[j] != id@,
    {
        if inputs[s].tensor_meta.id.same_as(id) {
            proof {
                assert(ids[s as int] == id@);
            }
            return true;
        }
        proof {
            assert(ids[s as int] == inputs@[s as int].spec_id());
        }
    }
    let n_out = outputs.len();
    for s in 0..n_out
        invariant
            n_out == outputs@.len(),
            ids == all_ids(inputs@, outputs@),
            forall|j: int| 0 <= j < inputs@.len() + s ==> ids[j] != id@,
    {
        if outputs[s].tensor_meta.id.same_as(id) {
            proof {
                assert(ids[inputs@.len() + s] == id@);
            }
            return true;
        }
        proof {
            assert(ids[inputs@.len() + s] == outputs@[s as int].spec_id());
        }
    }
    proof {
        if ids.contains(id@) {
            let j = choose|j: int| 0 <= j < ids.len() && ids[j] == id@;
        }
    }
    false
}

/// Walks every pre-processing step of every input tensor and reports the
/// first reference to a tensor that the interface does not declare at all.
fn check_input_refs(inputs: &Vec<InputSlot>, outputs: &Vec<OutputSlot>) -> (r: Option<TensorId>)
    ensures
        match r {
            None => input_refs_ok(inputs@, outputs@),
            Some(t) => !input_refs_ok(inputs@, outputs@) && !all_ids(
                inputs@,
                outputs@,
            ).contains(t@) && input_ref_blame(inputs@, outputs@, t@),
        },
{
    let n = inputs.len();
    for s in 0..n
        invariant
            n == inputs@.len(),
            forall|s2: int, p: int|
                0 <= s2 < s && 0 <= p < inputs@[s2].tensor_meta.preprocessing@.len() ==> match (
                #[trigger] inputs@[s2].tensor_meta.preprocessing@[p]).spec_reference() {
                    Some(t) => all_ids(inputs@, outputs@).contains(t),
                    None => true,
                },
    {
        let n_p = inputs[s].tensor_meta.preprocessing.len();
        for p in 0..n_p
            invariant
                n == inputs@.len(),
                s < n,
                n_p == inputs@[s as int].tensor_meta.preprocessing@.len(),
                forall|s2: int, p2: int|
                    0 <= s2 < s && 0 <= p2 < inputs@[s2].tensor_meta.preprocessing@.len()
                        ==> match (
                    #[trigger] inputs@[s2].tensor_meta.preprocessing@[p2]).spec_reference() {
                        Some(t) => all_ids(inputs@, outputs@).contains(t),
                        None => true,
                    },
                forall|p2: int|
                    0 <= p2 < p ==> match (
                    #[trigger] inputs@[s as int].tensor_meta.preprocessing@[p2]).spec_reference() {
                        Some(t) => all_ids(inputs@, outputs@).contains(t),
                        None => true,
                    },
        {
            let step = &inputs[s].tensor_meta.preprocessing[p];
            match step {
                PreprocessingDescr::ScaleRange(d) => {
                    match &d.reference_tensor {
                        Some(t) => {
                            if !all_ids_contain(inputs, outputs, t) {
                                proof {
                                    let s0 = s as int;
                                    let p0 = p as int;
                                    assert(inputs@[s0].tensor_meta.preprocessing@[p0].spec_reference()
                                        == Some(t@));
                                    assert(!input_refs_ok(inputs@, outputs@)) by {
                                        if input_refs_ok(inputs@, outputs@) {
                                            assert(match (
                                            inputs@[s0].tensor_meta.preprocessing@[p0]).spec_reference() {
                                                Some(t2) => all_ids(inputs@, outputs@).contains(
                                                    t2,
                                                ),
                                                None => true,
                                            });
                                        }
                                    }
                                    // Every step scanned before this one
                                    // named a declared tensor.
                                    assert forall|s2: int, p2: int|
                                        0 <= s2 < inputs@.len() && 0 <= p2
                                            < inputs@[s2].tensor_meta.preprocessing@.len() && (s2
                                            < s0 || (s2 == s0 && p2 < p0)) implies match (
                                    #[trigger] inputs@[s2].tensor_meta.preprocessing@[p2]).spec_reference() {
                                        Some(t2) => all_ids(inputs@, outputs@).contains(t2),
                                        None => true,
                                    } by {}
                                    assert(input_ref_blame(inputs@, outputs@, t@));
                                }
                                return Some(t.clone());
                            }
                        },
                        None => {},
                    }
                },
                _ => {},
            }
        }
    }
    None
}

/// Walks every post-processing step of every output tensor and reports the
/// first reference to a tensor that the interface does not declare at all.
fn check_output_refs(inputs: &Vec<InputSlot>, outputs: &Vec<OutputSlot>) -> (r: Option<TensorId>)
    ensures
        match r {
            None => output_refs_ok(inputs@, outputs@),
            Some(t) => !output_refs_ok(inputs@, outputs@) && !all_ids(
                inputs@,
                outputs@,
            ).contains(t@) && output_ref_blame(inputs@, outputs@, t@),
        },
{
    let n = outputs.len();
    for s in 0..n
        invariant
            n == outputs@.len(),
            forall|s2: int, p: int|
                0 <= s2 < s && 0 <= p < outputs@[s2].tensor_meta.postprocessing@.len() ==> match (
                #[trigger] outputs@[s2].tensor_meta.postprocessing@[p]).spec_reference() {
                    Some(t) => all_ids(inputs@, outputs@).contains(t),
                    None => true,
                },
    {
        let n_p = outputs[s].tensor_meta.postprocessing.len();
        for p in 0..n_p
            invariant
                n == outputs@.len(),
                s < n,
                n_p == outputs@[s as int].tensor_meta.postprocessing@.len(),
                forall|s2: int, p2: int|
                    0 <= s2 < s && 0 <= p2 < outputs@[s2].tensor_meta.postprocessing@.len()
                        ==> match (
                    #[trigger] outputs@[s2].tensor_meta.postprocessing@[p2]).spec_reference() {
                        Some(t) => all_ids(inputs@, outputs@).contains(t),
                        None => true,
                    },
                forall|p2: int|
                    0 <= p2 < p ==> match (
                    #[trigger] outputs@[s as int].tensor_meta.postprocessing@[p2]).spec_reference() {
                        Some(t) => all_ids(inputs@, outputs@).contains(t),
                        None => true,
                    },
        {
            let step = &outputs[s].tensor_meta.postprocessing[p];
            let reference: Option<&TensorId> = match step {
                PostprocessingDescr::ScaleMeanVarianceDescr(d) => Some(&d.reference_tensor),
                PostprocessingDescr::ScaleRange(d) => match &d.reference_tensor {
                    Some(t) => Some(t),
                    None => None,
                },
                _ => None,
            };
            if let Some(t) = reference {
                proof {
                    assert(outputs@[s as int].tensor_meta.postprocessing@[p as int].spec_reference()
                        == Some(t@));
                }
                if !all_ids_contain(inputs, outputs, t) {
                    proof {
                        let s0 = s as int;
                        let p0 = p as int;
                        assert(!output_refs_ok(inputs@, outputs@)) by {
                            if output_refs_ok(inputs@, outputs@) {
                                assert(match (
                                outputs@[s0].tensor_meta.postprocessing@[p0]).spec_reference() {
                                    Some(t2) => all_ids(inputs@, outputs@).contains(t2),
                                    None => true,
                                });
                            }
                        }
                        // Every step scanned before this one named a
                        // declared tensor.
                        assert forall|s2: int, p2: int|
                            0 <= s2 < outputs@.len() && 0 <= p2
                                < outputs@[s2].tensor_meta.postprocessing@.len() && (s2 < s0 || (
                            s2 == s0 && p2 < p0)) implies match (
                        #[trigger] outputs@[s2].tensor_meta.postprocessing@[p2]).spec_reference() {
                            Some(t2) => all_ids(inputs@, outputs@).contains(t2),
                            None => true,
                        } by {}
                        assert(output_ref_blame(inputs@, outputs@, t@));
                    }
                    return Some(t.clone());
                }
            }
        }
    }
    None
}

/// A validated model interface: construction succeeds only for a candidate
/// set of slots that passes every check of [`build_ok`].
pub struct ModelInterface {
    inputs: Vec<InputSlot>,
    outputs: Vec<OutputSlot>,
}

impl ModelInterface {
    /// The validated input slots.
    pub closed spec fn spec_inputs(self) -> Seq<InputSlot> {
        self.inputs@
    }

    /// The validated output slots.
    pub closed spec fn spec_outputs(self) -> Seq<OutputSlot> {
        self.outputs@
    }

    pub fn inputs(&self) -> (r: &Vec<InputSlot>)
        ensures
            r@ == self.spec_inputs(),
    {
        &self.inputs
    }

    pub fn outputs(&self) -> (r: &Vec<OutputSlot>)
        ensures
            r@ == self.spec_outputs(),
    {
        &self.outputs
    }

    /// Validates a candidate set of tensor slots and builds the interface.
    /// Construction succeeds exactly when every check of [`build_ok`]
    /// passes; the first violated check aborts the call with its structured
    /// error, in this order: empty lists, duplicate tensor ids, axis-size
    /// resolution, sample-shape compatibility (inputs, then outputs), and
    /// processing-step tensor references (inputs, then outputs).
    pub fn try_build(inputs: Vec<InputSlot>, outputs: Vec<OutputSlot>) -> (r: Result<
        ModelInterface,
        TensorValidationError,
    >)
        requires
            sizes_wf(inputs@, outputs@),
        ensures
            r is Ok <==> build_ok(inputs@, outputs@),
            // The checks run in a fixed order; the first one that fails
            // names the error, so an earlier failure is never masked by a
            // later one.
            inputs@.len() == 0 ==> r matches Err(TensorValidationError::EmptyInputs),
            inputs@.len() > 0 && outputs@.len() == 0 ==> r matches Err(
                TensorValidationError::EmptyOutputs,
            ),
            inputs@.len() > 0 && outputs@.len() > 0 && has_dup(all_ids(inputs@, outputs@))
                ==> r matches Err(TensorValidationError::DuplicateTensorId(_)),
            inputs@.len() > 0 && outputs@.len() > 0 && !has_dup(all_ids(inputs@, outputs@)) && !(
            distinct_entry_keys(inputs@, outputs@) && resolution_ok(decl_of(inputs@, outputs@)))
                ==> r matches Err(TensorValidationError::AxisSizeResolutionError(_)),
            inputs@.len() > 0 && outputs@.len() > 0 && !has_dup(all_ids(inputs@, outputs@))
                && distinct_entry_keys(inputs@, outputs@) && resolution_ok(
                decl_of(inputs@, outputs@),
            ) && !shapes_ok(inputs@, outputs@, decl_of(inputs@, outputs@)) ==> (r matches Err(e)
                && (e matches TensorValidationError::MismatchedNumDimensions { .. } || e matches
                TensorValidationError::IncompatibleAxis { .. })),
            inputs@.len() > 0 && outputs@.len() > 0 && !has_dup(all_ids(inputs@, outputs@))
                && distinct_entry_keys(inputs@, outputs@) && resolution_ok(
                decl_of(inputs@, outputs@),
            ) && shapes_ok(inputs@, outputs@, decl_of(inputs@, outputs@)) && !(input_refs_ok(
                inputs@,
                outputs@,
            ) && output_refs_ok(inputs@, outputs@)) ==> r matches Err(
                TensorValidationError::InvalidTensorReference { .. },
            ),
            // What each error certifies, the earlier checks having passed.
            match r {
                Ok(mi) => mi.spec_inputs() == inputs@ && mi.spec_outputs() == outputs@,
                Err(e) => match e {
                    TensorValidationError::EmptyInputs => inputs@.len() == 0,
                    TensorValidationError::EmptyOutputs => inputs@.len() > 0 && outputs@.len()
                        == 0,
                    TensorValidationError::DuplicateTensorId(id) => {
                        let ids = all_ids(inputs@, outputs@);
                        &&& inputs@.len() > 0 && outputs@.len() > 0
                        &&& exists|j: int| #[trigger] first_dup_id_at(ids, j) && ids[j] == id@
                    },
                    TensorValidationError::AxisSizeResolutionError(re) => {
                        &&& inputs@.len() > 0 && outputs@.len() > 0
                        &&& !has_dup(all_ids(inputs@, outputs@))
                        &&& match re {
                            AxisSizeResolutionError::DuplicateId(id) => !distinct_entry_keys(
                                inputs@,
                                outputs@,
                            ) && exists|j: int|
                                #[trigger] first_entry_dup_at(
                                    collected_entries(inputs@, outputs@),
                                    j,
                                ) && collected_entries(inputs@, outputs@)[j].0 == id@,
                            _ => distinct_entry_keys(inputs@, outputs@) && failed_resolution(
                                decl_of(inputs@, outputs@),
                                re,
                            ) && crate::axis_size_resolver::solve_failure_report(
                                decl_of(inputs@, outputs@),
                                view_ref_keys(collected_entries(inputs@, outputs@)),
                                re,
                            ),
                        }
                    },
                    TensorValidationError::MismatchedNumDimensions { .. } => true,
                    TensorValidationError::IncompatibleAxis { .. } => true,
                    TensorValidationError::InvalidTensorReference { reference } => {
                        let m = decl_of(inputs@, outputs@);
                        &&& inputs@.len() > 0 && outputs@.len() > 0
                        &&& !has_dup(all_ids(inputs@, outputs@))
                        &&& distinct_entry_keys(inputs@, outputs@)
                        &&& resolution_ok(m)
                        &&& shapes_ok(inputs@, outputs@, m)
                        &&& !all_ids(inputs@, outputs@).contains(reference@)
                        &&& ((!input_refs_ok(inputs@, outputs@) && input_ref_blame(
                            inputs@,
                            outputs@,
                            reference@,
                        )) || (input_refs_ok(inputs@, outputs@) && !output_refs_ok(
                            inputs@,
                            outputs@,
                        ) && output_ref_blame(inputs@, outputs@, reference@)))
                    },
                },
            },
            // A shape error blames the first offending slot, inputs scanned
            // before outputs, the earlier checks having passed.
            match r {
                Ok(_) => true,
                Err(e) => (e matches TensorValidationError::MismatchedNumDimensions { .. }
                    || e matches TensorValidationError::IncompatibleAxis { .. }) ==> {
                    let m = decl_of(inputs@, outputs@);
                    &&& inputs@.len() > 0 && outputs@.len() > 0
                    &&& !has_dup(all_ids(inputs@, outputs@))
                    &&& distinct_entry_keys(inputs@, outputs@)
                    &&& resolution_ok(m)
                    &&& (input_shape_blame(inputs@, m, e) || ((forall|s: int|
                        0 <= s < inputs@.len() ==> input_slot_shape_ok(#[trigger] inputs@[s], m))
                        && output_shape_blame(outputs@, m, e)))
                },
            },
    {
        if inputs.len() == 0 {
            return Err(TensorValidationError::EmptyInputs);
        }
        if outputs.len() == 0 {
            return Err(TensorValidationError::EmptyOutputs);
        }
        if let Some(id) = check_duplicate_ids(&inputs, &outputs) {
            return Err(TensorValidationError::DuplicateTensorId(id));
        }
        let collected = collect_sizes(&inputs, &outputs);
        let ghost m = decl_of(inputs@, outputs@);
        proof {
            lemma_map_of_pair_views(collected@);
            assert(crate::axis_size_resolver::map_of(collected@) == m);
        }
        let resolver = match crate::axis_size_resolver::SlotResolver::new(collected) {
            Ok(resolver) => resolver,
            Err(e) => {
                proof {
                    match &e {
                        AxisSizeResolutionError::DuplicateId(id) => {
                            let c = collected_entries(inputs@, outputs@);
                            let j = choose|j: int|
                                #[trigger] crate::axis_size_resolver::first_duplicate_at(
                                    collected@,
                                    j,
                                ) && 0 <= j < collected@.len() && collected@[j].0@ == id@;
                            let i = choose|i: int|
                                0 <= i < j && collected@[i].0@ == collected@[j].0@;
                            assert(pair_views(collected@)[i].0 == collected@[i].0@);
                            assert(pair_views(collected@)[j].0 == collected@[j].0@);
                            assert(c[i].0 == c[j].0 && c[j].0 == id@);
                            assert forall|a: int, b: int| 0 <= a < b < j implies c[a].0
                                != c[b].0 by {
                                assert(pair_views(collected@)[a].0 == collected@[a].0@);
                                assert(pair_views(collected@)[b].0 == collected@[b].0@);
                            }
                            assert(first_entry_dup_at(c, j));
                        },
                        _ => {},
                    }
                }
                return Err(TensorValidationError::AxisSizeResolutionError(e));
            },
        };
        let sizes = match resolver.solve() {
            Ok(sizes) => sizes,
            Err(e) => {
                proof {
                    assert(!resolution_ok(m));
                    lemma_ref_keys_pair_views(collected@);
                    assert(view_ref_keys(collected_entries(inputs@, outputs@))
                        == crate::axis_size_resolver::ref_keys(collected@));
                }
                return Err(TensorValidationError::AxisSizeResolutionError(e));
            },
        };
        proof {
            // The resolved mapping binds every declared qualified id of the
            // interface, and every declared size is well formed.
            let entries = collected_entries(inputs@, outputs@);
            lemma_view_map_of_values(entries);
            assert forall|id: QidView| #[trigger] m.dom().contains(id) implies size_view_wf(
                m[id],
            ) by {
                let k = choose|k: int| 0 <= k < entries.len() && #[trigger] entries[k] == (
                id,
                m[id],
                );
                assert(collected_entries(inputs@, outputs@)[k] == (id, m[id]));
                assert(size_view_wf(collected_entries(inputs@, outputs@)[k].1));
            }
            assert forall|s: int, i: int|
                0 <= s < inputs@.len() && 0 <= i < inputs@[s].spec_axes().len() && (
                #[trigger] inputs@[s].spec_axes()[i]).spec_size() is Some implies m.dom().contains(
                inputs@[s].spec_qid(i),
            ) by {
                lemma_input_qid_declared(inputs@, outputs@, s, i);
            }
            assert forall|s: int, i: int|
                0 <= s < outputs@.len() && 0 <= i < outputs@[s].spec_axes().len() && (
                #[trigger] outputs@[s].spec_axes()[i]).spec_size() is Some implies m.dom().contains(
                outputs@[s].spec_qid(i),
            ) by {
                lemma_output_qid_declared(inputs@, outputs@, s, i);
            }
        }
        if let Err(e) = check_input_shapes(&inputs, &sizes, Ghost(m)) {
            return Err(e);
        }
        if let Err(e) = check_output_shapes(&outputs, &sizes, Ghost(m)) {
            return Err(e);
        }
        if let Some(t) = check_input_refs(&inputs, &outputs) {
            return Err(TensorValidationError::InvalidTensorReference { reference: t });
        }
        if let Some(t) = check_output_refs(&inputs, &outputs) {
            return Err(TensorValidationError::InvalidTensorReference { reference: t });
        }
        Ok(ModelInterface { inputs, outputs })
    }
}

} // verus!
