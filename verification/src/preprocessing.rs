//! Pre- and post-processing step descriptions, modeled down to what the
//! interface validator reads: the kind of each step and, where a step
//! rescales against another tensor, the id of that reference tensor.

use vstd::prelude::*;

use crate::axis_size::AxisId;
use crate::axis_size::TensorId;
use crate::rdf::DataType;

verus! {

/// The sigmoid step; it has no parameters.
#[derive(Clone, Copy)]
pub struct Sigmoid;

/// A step that casts the tensor to a declared element type.
#[derive(Clone, Copy)]
pub struct EnsureDtype {
    pub dtype: DataType,
}

/// Copies a list of axis ids.
fn clone_axis_ids(v: &Vec<AxisId>) -> (r: Vec<AxisId>)
    ensures
        r@ == v@,
{
    let mut r: Vec<AxisId> = Vec::new();
    let n = v.len();
    for i in 0..n
        invariant
            n == v@.len(),
            r@ == v@.take(i as int),
    {
        r.push(v[i].clone());
        proof {
            assert(r@ =~= v@.take(i as int + 1));
        }
    }
    proof {
        assert(v@.take(n as int) =~= v@);
    }
    r
}

/// Copies the optional axis list of a scaling step.
fn clone_axes_field(v: &Option<Vec<AxisId>>) -> (r: Option<Vec<AxisId>>)
    ensures
        match v {
            Some(axes) => r matches Some(raxes) && raxes@ == axes@,
            None => r is None,
        },
{
    match v {
        Some(axes) => Some(clone_axis_ids(axes)),
        None => None,
    }
}

/// A range-scaling step; it may rescale against another tensor, named by
/// `reference_tensor`.
pub struct ScaleRangeDescr {
    pub axes: Option<Vec<AxisId>>,
    pub reference_tensor: Option<TensorId>,
}

/// A step that matches the tensor's mean and variance to those of another
/// tensor, always named by `reference_tensor`.
pub struct ScaleMeanVarianceDescr {
    pub reference_tensor: TensorId,
    pub axes: Option<Vec<AxisId>>,
}

impl Clone for ScaleRangeDescr {
    fn clone(&self) -> (r: Self)
        ensures
            r.reference_tensor == self.reference_tensor,
            match self.axes {
                Some(axes) => r.axes matches Some(raxes) && raxes@ == axes@,
                None => r.axes is None,
            },
    {
        ScaleRangeDescr {
            axes: clone_axes_field(&self.axes),
            reference_tensor: match &self.reference_tensor {
                Some(t) => Some(t.clone()),
                None => None,
            },
        }
    }
}

impl Clone for ScaleMeanVarianceDescr {
    fn clone(&self) -> (r: Self)
        ensures
            r.reference_tensor == self.reference_tensor,
            match self.axes {
                Some(axes) => r.axes matches Some(raxes) && raxes@ == axes@,
                None => r.axes is None,
            },
    {
        ScaleMeanVarianceDescr {
            reference_tensor: self.reference_tensor.clone(),
            axes: clone_axes_field(&self.axes),
        }
    }
}

/// One pre-processing step of an input tensor.  Steps whose numeric
/// parameters play no part in interface validation carry no payload here.
pub enum PreprocessingDescr {
    Binarize,
    Clip,
    ScaleLinear,
    Sigmoid(Sigmoid),
    ZeroMeanUnitVariance,
    ScaleRange(ScaleRangeDescr),
    EnsureDtype(EnsureDtype),
    FixedZeroMeanUnitVariance,
}

impl PreprocessingDescr {
    /// The tensor this step rescales against, if it names one: only a
    /// range-scaling step carries such a reference.
    pub open spec fn spec_reference(self) -> Option<Seq<char>> {
        match self {
            PreprocessingDescr::ScaleRange(d) => match d.reference_tensor {
                Some(t) => Some(t@),
                None => None,
            },
            _ => None,
        }
    }
}

impl Clone for PreprocessingDescr {
    fn clone(&self) -> (r: Self)
        ensures
            r.spec_reference() == self.spec_reference(),
    {
        match self {
            PreprocessingDescr::Binarize => PreprocessingDescr::Binarize,
            PreprocessingDescr::Clip => PreprocessingDescr::Clip,
            PreprocessingDescr::ScaleLinear => PreprocessingDescr::ScaleLinear,
            PreprocessingDescr::Sigmoid(s) => PreprocessingDescr::Sigmoid(*s),
            PreprocessingDescr::ZeroMeanUnitVariance => PreprocessingDescr::ZeroMeanUnitVariance,
            PreprocessingDescr::ScaleRange(d) => PreprocessingDescr::ScaleRange(d.clone()),
            PreprocessingDescr::EnsureDtype(d) => PreprocessingDescr::EnsureDtype(*d),
            PreprocessingDescr::FixedZeroMeanUnitVariance
                => PreprocessingDescr::FixedZeroMeanUnitVariance,
        }
    }
}

/// One post-processing step of an output tensor.
pub enum PostprocessingDescr {
    Binarize,
    Clip,
    EnsureDtype(EnsureDtype),
    ScaleLinear,
    Sigmoid(Sigmoid),
    FixedZeroMeanUnitVariance,
    ZeroMeanUnitVariance,
    ScaleRange(ScaleRangeDescr),
    ScaleMeanVarianceDescr(ScaleMeanVarianceDescr),
}

impl PostprocessingDescr {
    /// The tensor this step rescales against, if it names one: a
    /// mean/variance-scaling step always does, a range-scaling step may.
    pub open spec fn spec_reference(self) -> Option<Seq<char>> {
        match self {
            PostprocessingDescr::ScaleMeanVarianceDescr(d) => Some(d.reference_tensor@),
            PostprocessingDescr::ScaleRange(d) => match d.reference_tensor {
                Some(t) => Some(t@),
                None => None,
            },
            _ => None,
        }
    }
}

impl Clone for PostprocessingDescr {
    fn clone(&self) -> (r: Self)
        ensures
            r.spec_reference() == self.spec_reference(),
    {
        match self {
            PostprocessingDescr::Binarize => PostprocessingDescr::Binarize,
            PostprocessingDescr::Clip => PostprocessingDescr::Clip,
            PostprocessingDescr::EnsureDtype(d) => PostprocessingDescr::EnsureDtype(*d),
            PostprocessingDescr::ScaleLinear => PostprocessingDescr::ScaleLinear,
            PostprocessingDescr::Sigmoid(s) => PostprocessingDescr::Sigmoid(*s),
            PostprocessingDescr::FixedZeroMeanUnitVariance
                => PostprocessingDescr::FixedZeroMeanUnitVariance,
            PostprocessingDescr::ZeroMeanUnitVariance
                => PostprocessingDescr::ZeroMeanUnitVariance,
            PostprocessingDescr::ScaleRange(d) => PostprocessingDescr::ScaleRange(d.clone()),
            PostprocessingDescr::ScaleMeanVarianceDescr(d)
                => PostprocessingDescr::ScaleMeanVarianceDescr(d.clone()),
        }
    }
}

} // verus!
