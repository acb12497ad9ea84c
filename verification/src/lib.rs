//! Axis-size resolution and tensor-interface validation for multi-tensor
//! model descriptions.
//!
//! A model interface names its tensors and describes every axis of every
//! tensor.  An axis size is either a fixed extent, a parameterized family of
//! extents, or a reference to another axis's size.  The resolver eliminates
//! the references (detecting cycles, dangling targets and duplicate
//! declarations), and the interface validator checks the resolved sizes
//! against the shapes of the sample tensors that accompany the description.

pub mod axes;
pub mod axis_size;
pub mod axis_size_resolver;
pub mod icon;
pub mod model_interface;
pub mod preprocessing;
pub mod project_data;
pub mod rdf;
pub mod widgets;
