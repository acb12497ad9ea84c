//! Plain value types of the resource-description data model that surround
//! the tensor interface: file references, dataset descriptions, data types,
//! and small helpers shared by the description format.

use vstd::prelude::*;

verus! {

/// A file named by a description: either a URL or a path inside the
/// resource archive.
pub enum FileReference {
    Url(String),
    Path(String),
}

/// A SHA-256 digest, kept as its 64-character lowercase hex text.
pub struct Sha256(pub String);

/// A file reference together with an optional digest of its contents.
pub struct FileDescription {
    pub source: FileReference,
    pub sha256: Option<Sha256>,
}

/// The optional list of files attached to a resource.
pub struct Attachments {
    pub files: Option<Vec<FileReference>>,
}

/// The tag that marks a resource description as a model.
pub struct RdfTypeModel;

/// The tag that marks a resource description as a dataset.
pub struct DatasetDescrMarker;

/// A dataset resource description.
pub struct DatasetDescr {
    pub marker: DatasetDescrMarker,
    pub source: Option<String>,
}

/// A reference to a dataset that already exists in a collection.
pub struct LinkedDatasetDescr {
    pub id: String,
}

/// The dataset a model was trained on: described in place or linked by id.
pub enum DatasetDescrEnum {
    DatasetDescr(DatasetDescr),
    LinkedDatasetDescr(LinkedDatasetDescr),
}

/// A custom run mode for a model.
#[derive(Clone, Copy, PartialEq, Eq, Structural, Debug)]
pub enum RunMode {
    ImageJ,
}

/// The element type of a tensor.
#[derive(Clone, Copy, PartialEq, Eq, Structural, Debug)]
pub enum DataType {
    Bool,
    Float32,
    Float64,
    Uint8,
    Uint16,
    Uint32,
    Uint64,
    Int8,
    Int16,
    Int32,
    Int64,
}

/// The unsigned element types.
#[derive(Clone, Copy, PartialEq, Eq, Structural, Debug)]
pub enum UintDataType {
    Uint8,
    Uint16,
    Uint32,
    Uint64,
}

impl UintDataType {
    /// The same element type, as a member of the full data-type alphabet.
    pub open spec fn spec_widened(self) -> DataType {
        match self {
            UintDataType::Uint8 => DataType::Uint8,
            UintDataType::Uint16 => DataType::Uint16,
            UintDataType::Uint32 => DataType::Uint32,
            UintDataType::Uint64 => DataType::Uint64,
        }
    }
}

impl From<UintDataType> for DataType {
    fn from(value: UintDataType) -> (r: DataType)
        ensures
            r == value.spec_widened(),
    {
        match value {
            UintDataType::Uint8 => DataType::Uint8,
            UintDataType::Uint16 => DataType::Uint16,
            UintDataType::Uint32 => DataType::Uint32,
            UintDataType::Uint64 => DataType::Uint64,
        }
    }
}

impl vstd::std_specs::convert::FromSpecImpl<UintDataType> for DataType {
    open spec fn obeys_from_spec() -> bool {
        true
    }

    open spec fn from_spec(value: UintDataType) -> DataType {
        value.spec_widened()
    }
}

/// Relies on `core::slice::from_ref`: the returned slice holds exactly the
/// one referenced value.
pub assume_specification<T>[ core::slice::from_ref ](s: &T) -> (r: &[T])
    ensures
        r@.len() == 1,
        r@[0] == *s,
;

/// A value that may be written as one item or as a list of items.
pub enum SingleOrMultiple<T> {
    Single(T),
    Multiple(Vec<T>),
}

impl<T> SingleOrMultiple<T> {
    /// The items as a slice: a single value is a slice of length one.
    pub fn as_slice(&self) -> (r: &[T])
        ensures
            match self {
                SingleOrMultiple::Single(t) => r@.len() == 1 && r@[0] == *t,
                SingleOrMultiple::Multiple(ts) => r@ == ts@,
            },
    {
        match self {
            SingleOrMultiple::Single(t) => core::slice::from_ref(t),
            SingleOrMultiple::Multiple(ts) => ts.as_slice(),
        }
    }
}

} // verus!
