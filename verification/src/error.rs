//! The ways in which planning and reshaping fail.

use crate::arrow_calls::{arrow_error_message, arrow_error_text};
use arrow::error::ArrowError;
use vstd::prelude::*;
use vstd::string::*;

verus! {

/// The four families of failure.
#[derive(Debug, Clone, Copy, PartialEq, Eq, Structural)]
pub enum ErrorKind {
    /// A required field is absent, or two types cannot be reconciled.
    SchemaMismatch,
    /// The file stores a value in a form that is not read: a shredded variant, a map whose
    /// entries are not a key and a value.
    UnsupportedRepresentation,
    /// A plan and a batch that do not fit each other: a defect, not a fault of the input.
    InternalInvariantViolation,
    /// The columnar kernel failed.
    BufferError,
}

/// Which invariant a plan and a batch broke.
#[derive(Debug, Clone, Copy, PartialEq, Eq, Structural)]
pub enum Fault {
    /// A plan node that consumes a column stands at a position where the batch has none.
    ColumnCountMismatch,
    /// A plan node targets a position beyond the plan's length.
    TargetOutOfRange,
    /// After every node was placed, an output position was still empty.
    UnfilledSlot,
    /// A nested plan was given for a column that is no struct, list or map.
    NotNested,
    /// A nested plan was given for a list whose elements are no structs.
    ListWithoutStruct,
    /// A cast was asked of a column that has children.
    CastOfNested,
    /// A cast was asked to a type that no widening leads to.
    CastTarget,
    /// A cast was asked of a column whose values do not widen to the target.
    CastSource,
    /// A validity mask has other rows than the column that it belongs to.
    MaskLength,
    /// The reshaped entries of a map are not exactly a key and a value.
    MapEntries,
    /// The file has more leaf columns than a machine integer counts.
    TooManyLeaves,
}

/// A failure, with the path of the field at fault where there is one. A path lists field
/// names from the top level down.
#[derive(Debug)]
pub enum Error {
    /// The logical field is not in the file and may not be NULL.
    MissingRequiredColumn(Vec<String>),
    /// The physical type cannot be read as the logical type.
    TypeMismatch(Vec<String>),
    /// A variant that is not stored as its metadata and its value.
    UnsupportedVariantShredding(Vec<String>),
    /// A map whose entries do not have exactly two fields.
    MalformedMapShape(Vec<String>),
    /// A plan and a batch that do not fit each other.
    InternalError(Fault),
    /// The columnar kernel failed.
    Arrow(ArrowError),
}

/// The mathematical view of an [`Error`].
pub ghost enum ErrorView {
    MissingRequiredColumn(Seq<Seq<char>>),
    TypeMismatch(Seq<Seq<char>>),
    UnsupportedVariantShredding(Seq<Seq<char>>),
    MalformedMapShape(Seq<Seq<char>>),
    InternalError(Fault),
    Arrow(ArrowError),
}

/// The view of a path: the characters of each name.
pub open spec fn path_view(path: Vec<String>) -> Seq<Seq<char>> {
    Seq::new(path.len() as nat, |i: int| path[i]@)
}

impl View for Error {
    type V = ErrorView;

    open spec fn view(&self) -> ErrorView {
        match *self {
            Error::MissingRequiredColumn(p) => ErrorView::MissingRequiredColumn(path_view(p)),
            Error::TypeMismatch(p) => ErrorView::TypeMismatch(path_view(p)),
            Error::UnsupportedVariantShredding(p) => ErrorView::UnsupportedVariantShredding(
                path_view(p),
            ),
            Error::MalformedMapShape(p) => ErrorView::MalformedMapShape(path_view(p)),
            Error::InternalError(f) => ErrorView::InternalError(f),
            Error::Arrow(e) => ErrorView::Arrow(e),
        }
    }
}

impl ErrorView {
    /// The family of the failure.
    pub open spec fn kind(self) -> ErrorKind {
        match self {
            ErrorView::MissingRequiredColumn(_) => ErrorKind::SchemaMismatch,
            ErrorView::TypeMismatch(_) => ErrorKind::SchemaMismatch,
            ErrorView::UnsupportedVariantShredding(_) => ErrorKind::UnsupportedRepresentation,
            ErrorView::MalformedMapShape(_) => ErrorKind::UnsupportedRepresentation,
            ErrorView::InternalError(_) => ErrorKind::InternalInvariantViolation,
            ErrorView::Arrow(_) => ErrorKind::BufferError,
        }
    }

    /// The same failure, seen from one level up: the path starts with `name`.
    pub open spec fn within(self, name: Seq<char>) -> ErrorView {
        match self {
            ErrorView::MissingRequiredColumn(p) => ErrorView::MissingRequiredColumn(
                seq![name] + p,
            ),
            ErrorView::TypeMismatch(p) => ErrorView::TypeMismatch(seq![name] + p),
            ErrorView::UnsupportedVariantShredding(p) => ErrorView::UnsupportedVariantShredding(
                seq![name] + p,
            ),
            ErrorView::MalformedMapShape(p) => ErrorView::MalformedMapShape(seq![name] + p),
            ErrorView::InternalError(f) => ErrorView::InternalError(f),
            ErrorView::Arrow(e) => ErrorView::Arrow(e),
        }
    }
}

/// A path as text: its names, with a dot between each two.
pub open spec fn dotted(path: Seq<Seq<char>>) -> Seq<char>
    decreases path.len(),
{
    if path.len() == 0 {
        Seq::empty()
    } else if path.len() == 1 {
        path[0]
    } else {
        dotted(path.drop_last()) + "."@ + path.last()
    }
}

/// What is said of each broken invariant.
pub open spec fn fault_text(fault: Fault) -> Seq<char> {
    match fault {
        Fault::ColumnCountMismatch => "The plan has a node for a column that was not decoded."@,
        Fault::TargetOutOfRange => "The plan sends a column beyond its last position."@,
        Fault::UnfilledSlot => "Found an output position that no column was placed at."@,
        Fault::NotNested => "Nested reorder can only apply to struct/list/map."@,
        Fault::ListWithoutStruct => "Nested reorder of list should have had struct child."@,
        Fault::CastOfNested => "A cast can only apply to a column without children."@,
        Fault::CastTarget => "A cast can only lead to a wider type."@,
        Fault::CastSource => "A cast can only start from a narrower type."@,
        Fault::MaskLength => "A validity mask has other rows than its column."@,
        Fault::MapEntries => "The entries of a map should have been a key and a value."@,
        Fault::TooManyLeaves => "The file has more leaf columns than can be counted."@,
    }
}

/// The text of a failure.
pub open spec fn message_spec(e: ErrorView) -> Seq<char> {
    match e {
        ErrorView::MissingRequiredColumn(p) =>
            "Requested field not found in parquet schema, and field is not nullable: "@ + dotted(p),
        ErrorView::TypeMismatch(p) => "Unexpected column type: "@ + dotted(p),
        ErrorView::UnsupportedVariantShredding(p) => "The field "@ + dotted(p)
            + " presumed to be of Variant type might be shredded in the parquet file. The default engine does not support shredded reads yet."@,
        ErrorView::MalformedMapShape(p) => "The entries of the map are not a key and a value: "@
            + dotted(p),
        ErrorView::InternalError(f) => "Internal error: "@ + fault_text(f),
        ErrorView::Arrow(e) => arrow_error_text(e),
    }
}

/// The text of a path.
fn path_text(path: &Vec<String>) -> (text: String)
    ensures
        text@ == dotted(path_view(*path)),
{
    let ghost names = path_view(*path);
    let mut text = String::new();
    let mut i: usize = 0;
    while i < path.len()
        invariant
            i <= path.len(),
            names == path_view(*path),
            text@ == dotted(names.take(i as int)),
        decreases path.len() - i,
    {
        assert(names.take(i + 1).drop_last() =~= names.take(i as int));
        if i > 0 {
            text.append(".");
        }
        text.append(path[i].as_str());
        i += 1;
    }
    assert(names.take(path.len() as int) =~= names);
    text
}

/// What is said of a broken invariant.
fn fault_message(fault: Fault) -> (text: &'static str)
    ensures
        text@ == fault_text(fault),
{
    match fault {
        Fault::ColumnCountMismatch => "The plan has a node for a column that was not decoded.",
        Fault::TargetOutOfRange => "The plan sends a column beyond its last position.",
        Fault::UnfilledSlot => "Found an output position that no column was placed at.",
        Fault::NotNested => "Nested reorder can only apply to struct/list/map.",
        Fault::ListWithoutStruct => "Nested reorder of list should have had struct child.",
        Fault::CastOfNested => "A cast can only apply to a column without children.",
        Fault::CastTarget => "A cast can only lead to a wider type.",
        Fault::CastSource => "A cast can only start from a narrower type.",
        Fault::MaskLength => "A validity mask has other rows than its column.",
        Fault::MapEntries => "The entries of a map should have been a key and a value.",
        Fault::TooManyLeaves => "The file has more leaf columns than can be counted.",
    }
}

/// A path of one name.
pub fn path_of(name: &String) -> (path: Vec<String>)
    ensures
        path_view(path) == seq![name@],
{
    let mut path: Vec<String> = Vec::new();
    path.push(name.clone());
    path
}

/// The path with `name` put in front.
fn path_within(path: Vec<String>, name: &String) -> (res: Vec<String>)
    ensures
        path_view(res) == seq![name@] + path_view(path),
{
    let mut res = path;
    res.insert(0, name.clone());
    res
}

impl Error {
    /// The family of the failure.
    pub fn kind(&self) -> (k: ErrorKind)
        ensures
            k == self@.kind(),
    {
        match self {
            Error::MissingRequiredColumn(_) => ErrorKind::SchemaMismatch,
            Error::TypeMismatch(_) => ErrorKind::SchemaMismatch,
            Error::UnsupportedVariantShredding(_) => ErrorKind::UnsupportedRepresentation,
            Error::MalformedMapShape(_) => ErrorKind::UnsupportedRepresentation,
            Error::InternalError(_) => ErrorKind::InternalInvariantViolation,
            Error::Arrow(_) => ErrorKind::BufferError,
        }
    }

    /// The text of the failure, for a reader.
    pub fn message(&self) -> (text: String)
        ensures
            text@ == message_spec(self@),
    {
        match self {
            Error::MissingRequiredColumn(p) => {
                let mut text = String::from_str(
                    "Requested field not found in parquet schema, and field is not nullable: ",
                );
                text.append(path_text(p).as_str());
                text
            },
            Error::TypeMismatch(p) => {
                let mut text = String::from_str("Unexpected column type: ");
                text.append(path_text(p).as_str());
                text
            },
            Error::UnsupportedVariantShredding(p) => {
                let mut text = String::from_str("The field ");
                text.append(path_text(p).as_str());
                text.append(
                    " presumed to be of Variant type might be shredded in the parquet file. The default engine does not support shredded reads yet.",
                );
                text
            },
            Error::MalformedMapShape(p) => {
                let mut text = String::from_str(
                    "The entries of the map are not a key and a value: ",
                );
                text.append(path_text(p).as_str());
                text
            },
            Error::InternalError(f) => {
                let mut text = String::from_str("Internal error: ");
                text.append(fault_message(*f));
                text
            },
            Error::Arrow(e) => arrow_error_message(e),
        }
    }

    /// The same failure, seen from one level up: the path starts with `name`.
    pub fn within(self, name: &String) -> (e: Error)
        ensures
            e@ == self@.within(name@),
    {
        match self {
            Error::MissingRequiredColumn(p) => Error::MissingRequiredColumn(path_within(p, name)),
            Error::TypeMismatch(p) => Error::TypeMismatch(path_within(p, name)),
            Error::UnsupportedVariantShredding(p) => Error::UnsupportedVariantShredding(
                path_within(p, name),
            ),
            Error::MalformedMapShape(p) => Error::MalformedMapShape(path_within(p, name)),
            Error::InternalError(f) => Error::InternalError(f),
            Error::Arrow(e) => Error::Arrow(e),
        }
    }
}

} // verus!
