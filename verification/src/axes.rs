//! The axis model: every tensor axis has a kind (batch, channel, index,
//! time, space), an identifier, and — for all kinds but batch — a size.

use vstd::prelude::*;

use crate::axis_size::AnyAxisSize;
use crate::axis_size::AxisId;
use crate::axis_size::FixedAxisSize;
use crate::axis_size::SizeView;

verus! {

/// The kind of an axis.
#[derive(Clone, Copy, PartialEq, Eq, Structural, Debug)]
pub enum AxisType {
    Batch,
    Channel,
    Index,
    Time,
    Space,
}

/// Copies a list of channel names.
fn clone_strings(v: &Vec<String>) -> (r: Vec<String>)
    ensures
        r@ == v@,
{
    let r = v.clone();
    proof {
        assert forall|i: int| 0 <= i < v@.len() implies r@[i] == v@[i] by {
            assert(vstd::pervasive::cloned::<String>(v@[i], r@[i]));
        }
        assert(r@ =~= v@);
    }
    r
}

/// A batch axis: it carries no size constraint at all.
pub struct BatchAxis {
    pub id: AxisId,
    pub description: String,
}

impl Clone for BatchAxis {
    fn clone(&self) -> (r: Self)
        ensures
            r == *self,
    {
        BatchAxis { id: self.id.clone(), description: self.description.clone() }
    }
}

/// A channel axis: its size is fixed by the number of its channel names.
pub struct ChannelAxis {
    pub id: AxisId,
    pub description: String,
    pub channel_names: Vec<String>,
}

impl Clone for ChannelAxis {
    fn clone(&self) -> (r: Self)
        ensures
            r.id == self.id,
            r.description == self.description,
            r.channel_names@ == self.channel_names@,
    {
        ChannelAxis {
            id: self.id.clone(),
            description: self.description.clone(),
            channel_names: clone_strings(&self.channel_names),
        }
    }
}

impl ChannelAxis {
    /// The fixed extent of a channel axis: one slot per channel name.
    pub fn size(&self) -> (r: FixedAxisSize)
        ensures
            r == self.channel_names@.len(),
    {
        self.channel_names.len()
    }
}

/// An index axis, with an explicitly declared size.
pub struct IndexAxis {
    pub id: AxisId,
    pub description: String,
    pub size: AnyAxisSize,
}

impl Clone for IndexAxis {
    fn clone(&self) -> (r: Self)
        ensures
            r == *self,
    {
        IndexAxis {
            id: self.id.clone(),
            description: self.description.clone(),
            size: self.size.clone(),
        }
    }
}

/// A time axis of an input tensor.
pub struct TimeInputAxis {
    pub id: AxisId,
    pub description: String,
    pub size: AnyAxisSize,
}

impl Clone for TimeInputAxis {
    fn clone(&self) -> (r: Self)
        ensures
            r == *self,
    {
        TimeInputAxis {
            id: self.id.clone(),
            description: self.description.clone(),
            size: self.size.clone(),
        }
    }
}

/// A space axis of an input tensor.
pub struct SpaceInputAxis {
    pub id: AxisId,
    pub description: String,
    pub size: AnyAxisSize,
}

impl Clone for SpaceInputAxis {
    fn clone(&self) -> (r: Self)
        ensures
            r == *self,
    {
        SpaceInputAxis {
            id: self.id.clone(),
            description: self.description.clone(),
            size: self.size.clone(),
        }
    }
}

/// One axis of an input tensor.
pub enum InputAxis {
    Batch(BatchAxis),
    Channel(ChannelAxis),
    Index(IndexAxis),
    Time(TimeInputAxis),
    Space(SpaceInputAxis),
}

impl InputAxis {
    /// The kind of this axis.
    pub open spec fn spec_axis_type(self) -> AxisType {
        match self {
            InputAxis::Batch(_) => AxisType::Batch,
            InputAxis::Channel(_) => AxisType::Channel,
            InputAxis::Index(_) => AxisType::Index,
            InputAxis::Time(_) => AxisType::Time,
            InputAxis::Space(_) => AxisType::Space,
        }
    }

    /// The identifier text of this axis.
    pub open spec fn spec_id(self) -> Seq<char> {
        match self {
            InputAxis::Batch(a) => a.id@,
            InputAxis::Channel(a) => a.id@,
            InputAxis::Index(a) => a.id@,
            InputAxis::Time(a) => a.id@,
            InputAxis::Space(a) => a.id@,
        }
    }

    /// The size this axis declares: none for a batch axis, the channel
    /// count for a channel axis, and the declared size otherwise.
    pub open spec fn spec_size(self) -> Option<SizeView> {
        match self {
            InputAxis::Batch(_) => None,
            InputAxis::Channel(a) => Some(SizeView::Fixed(a.channel_names@.len() as int)),
            InputAxis::Index(a) => Some(a.size@),
            InputAxis::Time(a) => Some(a.size@),
            InputAxis::Space(a) => Some(a.size@),
        }
    }

    pub fn axis_type(&self) -> (r: AxisType)
        ensures
            r == self.spec_axis_type(),
    {
        match self {
            InputAxis::Batch(_) => AxisType::Batch,
            InputAxis::Channel(_) => AxisType::Channel,
            InputAxis::Index(_) => AxisType::Index,
            InputAxis::Time(_) => AxisType::Time,
            InputAxis::Space(_) => AxisType::Space,
        }
    }

    pub fn id(&self) -> (r: AxisId)
        ensures
            r@ == self.spec_id(),
    {
        match self {
            InputAxis::Batch(a) => a.id.clone(),
            InputAxis::Channel(a) => a.id.clone(),
            InputAxis::Index(a) => a.id.clone(),
            InputAxis::Time(a) => a.id.clone(),
            InputAxis::Space(a) => a.id.clone(),
        }
    }

    pub fn size(&self) -> (r: Option<AnyAxisSize>)
        ensures
            match r {
                Some(s) => self.spec_size() == Some(s@),
                None => self.spec_size() is None,
            },
    {
        match self {
            InputAxis::Batch(_) => None,
            InputAxis::Channel(a) => Some(AnyAxisSize::Fixed(a.size())),
            InputAxis::Index(a) => Some(a.size.clone()),
            InputAxis::Time(a) => Some(a.size.clone()),
            InputAxis::Space(a) => Some(a.size.clone()),
        }
    }
}

impl Clone for InputAxis {
    fn clone(&self) -> (r: Self)
        ensures
            r.spec_axis_type() == self.spec_axis_type(),
            r.spec_id() == self.spec_id(),
            r.spec_size() == self.spec_size(),
    {
        match self {
            InputAxis::Batch(a) => InputAxis::Batch(a.clone()),
            InputAxis::Channel(a) => InputAxis::Channel(a.clone()),
            InputAxis::Index(a) => InputAxis::Index(a.clone()),
            InputAxis::Time(a) => InputAxis::Time(a.clone()),
            InputAxis::Space(a) => InputAxis::Space(a.clone()),
        }
    }
}

/// The ordered axes of one input tensor.
pub struct InputAxisGroup(pub Vec<InputAxis>);

/// The size of an output space or time axis, together with an optional halo
/// (a border that is produced but not meaningful).
pub struct OutputSpacetimeSize {
    pub size: AnyAxisSize,
    pub halo: Option<u64>,
}

impl Clone for OutputSpacetimeSize {
    fn clone(&self) -> (r: Self)
        ensures
            r == *self,
    {
        OutputSpacetimeSize { size: self.size.clone(), halo: self.halo }
    }
}

/// A time axis of an output tensor.
pub struct TimeOutputAxis {
    pub id: AxisId,
    pub description: String,
    pub size: OutputSpacetimeSize,
}

impl Clone for TimeOutputAxis {
    fn clone(&self) -> (r: Self)
        ensures
            r == *self,
    {
        TimeOutputAxis {
            id: self.id.clone(),
            description: self.description.clone(),
            size: self.size.clone(),
        }
    }
}

/// A space axis of an output tensor.
pub struct SpaceOutputAxis {
    pub id: AxisId,
    pub description: String,
    pub size: OutputSpacetimeSize,
}

impl Clone for SpaceOutputAxis {
    fn clone(&self) -> (r: Self)
        ensures
            r == *self,
    {
        SpaceOutputAxis {
            id: self.id.clone(),
            description: self.description.clone(),
            size: self.size.clone(),
        }
    }
}

/// One axis of an output tensor.
pub enum OutputAxis {
    Batch(BatchAxis),
    Channel(ChannelAxis),
    Index(IndexAxis),
    Time(TimeOutputAxis),
    Space(SpaceOutputAxis),
}

impl OutputAxis {
    /// The kind of this axis.
    pub open spec fn spec_axis_type(self) -> AxisType {
        match self {
            OutputAxis::Batch(_) => AxisType::Batch,
            OutputAxis::Channel(_) => AxisType::Channel,
            OutputAxis::Index(_) => AxisType::Index,
            OutputAxis::Time(_) => AxisType::Time,
            OutputAxis::Space(_) => AxisType::Space,
        }
    }

    /// The identifier text of this axis.
    pub open spec fn spec_id(self) -> Seq<char> {
        match self {
            OutputAxis::Batch(a) => a.id@,
            OutputAxis::Channel(a) => a.id@,
            OutputAxis::Index(a) => a.id@,
            OutputAxis::Time(a) => a.id@,
            OutputAxis::Space(a) => a.id@,
        }
    }

    /// The size this axis declares: none for a batch axis, the channel
    /// count for a channel axis, and the declared size otherwise.
    pub open spec fn spec_size(self) -> Option<SizeView> {
        match self {
            OutputAxis::Batch(_) => None,
            OutputAxis::Channel(a) => Some(SizeView::Fixed(a.channel_names@.len() as int)),
            OutputAxis::Index(a) => Some(a.size@),
            OutputAxis::Time(a) => Some(a.size.size@),
            OutputAxis::Space(a) => Some(a.size.size@),
        }
    }

    pub fn axis_type(&self) -> (r: AxisType)
        ensures
            r == self.spec_axis_type(),
    {
        match self {
            OutputAxis::Batch(_) => AxisType::Batch,
            OutputAxis::Channel(_) => AxisType::Channel,
            OutputAxis::Index(_) => AxisType::Index,
            OutputAxis::Time(_) => AxisType::Time,
            OutputAxis::Space(_) => AxisType::Space,
        }
    }

    pub fn id(&self) -> (r: AxisId)
        ensures
            r@ == self.spec_id(),
    {
        match self {
            OutputAxis::Batch(a) => a.id.clone(),
            OutputAxis::Channel(a) => a.id.clone(),
            OutputAxis::Index(a) => a.id.clone(),
            OutputAxis::Time(a) => a.id.clone(),
            OutputAxis::Space(a) => a.id.clone(),
        }
    }

    pub fn size(&self) -> (r: Option<AnyAxisSize>)
        ensures
            match r {
                Some(s) => self.spec_size() == Some(s@),
                None => self.spec_size() is None,
            },
    {
        match self {
            OutputAxis::Batch(_) => None,
            OutputAxis::Channel(a) => Some(AnyAxisSize::Fixed(a.size())),
            OutputAxis::Index(a) => Some(a.size.clone()),
            OutputAxis::Time(a) => Some(a.size.size.clone()),
            OutputAxis::Space(a) => Some(a.size.size.clone()),
        }
    }
}

impl Clone for OutputAxis {
    fn clone(&self) -> (r: Self)
        ensures
            r.spec_axis_type() == self.spec_axis_type(),
            r.spec_id() == self.spec_id(),
            r.spec_size() == self.spec_size(),
    {
        match self {
            OutputAxis::Batch(a) => OutputAxis::Batch(a.clone()),
            OutputAxis::Channel(a) => OutputAxis::Channel(a.clone()),
            OutputAxis::Index(a) => OutputAxis::Index(a.clone()),
            OutputAxis::Time(a) => OutputAxis::Time(a.clone()),
            OutputAxis::Space(a) => OutputAxis::Space(a.clone()),
        }
    }
}

/// The ordered axes of one output tensor.
pub struct OutputAxisGroup(pub Vec<OutputAxis>);

} // verus!
