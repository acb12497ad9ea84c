//! The axis-size data model: qualified axis identifiers and the three kinds
//! of axis size a description may carry (fixed, parameterized, reference).

use vstd::prelude::*;

verus! {

/// Identifier of one tensor within a model interface.
#[derive(Debug)]
pub struct TensorId(pub String);

/// Identifier of one axis within a tensor.
#[derive(Debug)]
pub struct AxisId(pub String);

/// Names one axis uniquely across a whole model interface: the owning
/// tensor's identifier paired with the axis's own identifier.
#[derive(Debug)]
pub struct QualifiedAxisId {
    pub tensor_id: TensorId,
    pub axis_id: AxisId,
}

/// Mathematical image of a `QualifiedAxisId`: the two identifier texts.
pub struct QidView {
    pub tensor: Seq<char>,
    pub axis: Seq<char>,
}

impl View for TensorId {
    type V = Seq<char>;

    open spec fn view(&self) -> Seq<char> {
        self.0@
    }
}

impl View for AxisId {
    type V = Seq<char>;

    open spec fn view(&self) -> Seq<char> {
        self.0@
    }
}

impl View for QualifiedAxisId {
    type V = QidView;

    open spec fn view(&self) -> QidView {
        QidView { tensor: self.tensor_id@, axis: self.axis_id@ }
    }
}

impl TensorId {
    pub fn new(text: String) -> (r: TensorId)
        ensures
            r@ == text@,
    {
        TensorId(text)
    }

    /// Structural identity: two tensor ids are equal exactly when their
    /// texts are.
    pub fn same_as(&self, other: &TensorId) -> (r: bool)
        ensures
            r == (self@ == other@),
    {
        self.0 == other.0
    }
}

impl AxisId {
    pub fn new(text: String) -> (r: AxisId)
        ensures
            r@ == text@,
    {
        AxisId(text)
    }
}

impl Clone for TensorId {
    fn clone(&self) -> (r: Self)
        ensures
            r == *self,
    {
        TensorId(self.0.clone())
    }
}

impl Clone for AxisId {
    fn clone(&self) -> (r: Self)
        ensures
            r == *self,
    {
        AxisId(self.0.clone())
    }
}

impl Clone for QualifiedAxisId {
    fn clone(&self) -> (r: Self)
        ensures
            r == *self,
    {
        QualifiedAxisId { tensor_id: self.tensor_id.clone(), axis_id: self.axis_id.clone() }
    }
}

impl QualifiedAxisId {
    /// Structural identity: two qualified ids are equal exactly when both
    /// components are equal.
    pub fn same_as(&self, other: &QualifiedAxisId) -> (r: bool)
        ensures
            r == (self@ == other@),
    {
        let r = self.tensor_id.0 == other.tensor_id.0 && self.axis_id.0 == other.axis_id.0;
        proof {
            if self@.tensor == other@.tensor && self@.axis == other@.axis {
                assert(self@ == other@);
            }
        }
        r
    }
}

/// A fixed axis extent.
pub type FixedAxisSize = usize;

/// The infinite family `{min, min + step, min + 2*step, ...}`.
#[derive(Clone, Copy, PartialEq, Eq, Structural, Debug)]
pub struct ParameterizedAxisSize {
    pub min: usize,
    pub step: usize,
}

impl ParameterizedAxisSize {
    /// The step of a parameterized size family must be positive.
    pub open spec fn wf(self) -> bool {
        self.step >= 1
    }
}

/// "This axis's size is the same as `qualified_axis_id`'s resolved size."
/// The offset is carried for description only; resolution ignores it.
#[derive(Debug)]
pub struct AxisSizeReference {
    pub qualified_axis_id: QualifiedAxisId,
    pub offset: usize,
}

impl Clone for AxisSizeReference {
    fn clone(&self) -> (r: Self)
        ensures
            r == *self,
    {
        AxisSizeReference {
            qualified_axis_id: self.qualified_axis_id.clone(),
            offset: self.offset,
        }
    }
}

/// An axis size as supplied by a description.
#[derive(Debug)]
pub enum AnyAxisSize {
    Fixed(FixedAxisSize),
    Parameterized(ParameterizedAxisSize),
    Reference(AxisSizeReference),
}

/// Mathematical image of an `AnyAxisSize`.
pub enum SizeView {
    Fixed(int),
    Parameterized { min: int, step: int },
    Reference { target: QidView, offset: int },
}

impl View for AnyAxisSize {
    type V = SizeView;

    open spec fn view(&self) -> SizeView {
        match self {
            AnyAxisSize::Fixed(extent) => SizeView::Fixed(*extent as int),
            AnyAxisSize::Parameterized(p) => SizeView::Parameterized {
                min: p.min as int,
                step: p.step as int,
            },
            AnyAxisSize::Reference(r) => SizeView::Reference {
                target: r.qualified_axis_id@,
                offset: r.offset as int,
            },
        }
    }
}

impl Clone for AnyAxisSize {
    fn clone(&self) -> (r: Self)
        ensures
            r == *self,
    {
        match self {
            AnyAxisSize::Fixed(extent) => AnyAxisSize::Fixed(*extent),
            AnyAxisSize::Parameterized(p) => AnyAxisSize::Parameterized(*p),
            AnyAxisSize::Reference(r) => AnyAxisSize::Reference(r.clone()),
        }
    }
}

impl AnyAxisSize {
    /// A size description is well formed when a parameterized family has a
    /// positive step.
    pub open spec fn wf(self) -> bool {
        match self {
            AnyAxisSize::Parameterized(p) => p.wf(),
            _ => true,
        }
    }
}

/// The output alphabet of resolution: only fixed or parameterized sizes,
/// never a reference.
#[derive(Clone, Copy, PartialEq, Eq, Structural, Debug)]
pub enum ResolvedAxisSize {
    Fixed(FixedAxisSize),
    Parameterized(ParameterizedAxisSize),
}

/// Mathematical image of a `ResolvedAxisSize`.
pub enum ResolvedView {
    Fixed(int),
    Parameterized { min: int, step: int },
}

impl View for ResolvedAxisSize {
    type V = ResolvedView;

    open spec fn view(&self) -> ResolvedView {
        match self {
            ResolvedAxisSize::Fixed(extent) => ResolvedView::Fixed(*extent as int),
            ResolvedAxisSize::Parameterized(p) => ResolvedView::Parameterized {
                min: p.min as int,
                step: p.step as int,
            },
        }
    }
}


impl ResolvedAxisSize {
    /// A resolved size is well formed when a parameterized family has a
    /// positive step.
    pub open spec fn wf(self) -> bool {
        match self {
            ResolvedAxisSize::Parameterized(p) => p.wf(),
            _ => true,
        }
    }
}

/// A declared size is well formed when a parameterized family has a
/// positive step.
pub open spec fn size_view_wf(sv: SizeView) -> bool {
    match sv {
        SizeView::Parameterized { min, step } => step >= 1,
        _ => true,
    }
}

/// A resolved size is well formed when a parameterized family has a
/// positive step.
pub open spec fn resolved_view_wf(rv: ResolvedView) -> bool {
    match rv {
        ResolvedView::Parameterized { min, step } => step >= 1,
        _ => true,
    }
}

/// Whether the resolved size `r` admits a concrete extent: a fixed size
/// admits exactly its extent; a parameterized family admits every member
/// `min + k*step`.
pub open spec fn compatible(r: ResolvedView, extent: int) -> bool {
    match r {
        ResolvedView::Fixed(f) => extent == f,
        ResolvedView::Parameterized { min, step } => extent >= min && (extent - min) % step == 0,
    }
}

} // verus!
