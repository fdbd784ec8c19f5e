//! What this library takes from the `arrow` crate on trust.
//!
//! The declarations below make arrow's values known to the verifier as opaque values; the
//! functions call into arrow, and the verifier believes their contracts without reading
//! their bodies.

use crate::column::mask_view;
use crate::physical::{zone_view, PhysicalType, TimeUnit};
use arrow::array::ArrayRef;
use arrow::buffer::NullBuffer;
use arrow::datatypes::{DataType, TimeUnit as ArrowTimeUnit};
use arrow::error::ArrowError;
use vstd::prelude::*;

verus! {

/// An array that arrow has built: the values of one column. Opaque here, because the
/// verifier takes no `Arc<dyn Array>`: a value of it is carried along and handed back to
/// arrow, and what is read of it is read through the functions below.
#[verifier::external_body]
#[derive(Debug)]
pub struct ArrayValues {
    pub array: ArrayRef,
}

/// `arrow::error::ArrowError`: what an arrow kernel reports when it fails. Opaque here.
#[verifier::external_type_specification]
#[verifier::external_body]
pub struct ExArrowError(ArrowError);

/// The number of rows that an array holds.
pub uninterp spec fn array_len(values: ArrayValues) -> nat;

/// The validity that an array holds: one bit for each row, `true` for a row that holds a
/// value; `None` where it holds no mask.
pub uninterp spec fn array_validity(values: ArrayValues) -> Option<Seq<bool>>;

/// The type of an array, in the terms of this library.
pub uninterp spec fn array_type(values: ArrayValues) -> PhysicalType;

/// Calls `Array::len` on an array. Claimed of it: that it gives the number of rows.
#[verifier::external_body]
pub(crate) fn length_of(values: &ArrayValues) -> (len: usize)
    ensures
        len == array_len(*values),
{
    values.array.len()
}

/// Calls `Array::nulls` on an array and gives each bit as a `bool`. Claimed of it: that it
/// gives the validity of the array, and that a mask has one bit for each row of the array,
/// which every constructor of an arrow array sees to.
#[verifier::external_body]
pub(crate) fn validity_of(values: &ArrayValues) -> (nulls: Option<Vec<bool>>)
    ensures
        mask_view(nulls) == array_validity(*values),
        nulls matches Some(bits) ==> bits.len() == array_len(*values),
{
    values.array.nulls().map(|nulls| nulls.iter().collect())
}

/// The view of a borrowed validity mask.
pub open spec fn borrowed_mask_view(nulls: Option<&Vec<bool>>) -> Option<Seq<bool>> {
    match nulls {
        Some(v) => Some(v@),
        None => None,
    }
}

/// The union of the NULLs of two validity masks: a row holds a value where it does in both.
/// A side without a mask has no NULL.
pub open spec fn union_spec(lhs: Option<Seq<bool>>, rhs: Option<Seq<bool>>) -> Option<
    Seq<bool>,
> {
    match (lhs, rhs) {
        (Some(l), Some(r)) => Some(Seq::new(l.len(), |i: int| l[i] && r[i])),
        (Some(l), None) => Some(l),
        (None, Some(r)) => Some(r),
        (None, None) => None,
    }
}

/// Calls `arrow::buffer::NullBuffer::union` on two validity masks, each given as one `bool`
/// for each row. Claimed of it: where both sides have a mask the result is their bitwise
/// and, where one has the result is that one, where neither has there is none. Arrow panics
/// where the two masks differ in length, so that is required of the caller.
#[verifier::external_body]
pub(crate) fn union_nulls(lhs: Option<&Vec<bool>>, rhs: Option<&Vec<bool>>) -> (res: Option<Vec<bool>>)
    requires
        lhs is Some && rhs is Some ==> lhs->Some_0.len() == rhs->Some_0.len(),
    ensures
        mask_view(res) == union_spec(borrowed_mask_view(lhs), borrowed_mask_view(rhs)),
{
    let lhs = lhs.map(|bits| NullBuffer::from(bits.as_slice()));
    let rhs = rhs.map(|bits| NullBuffer::from(bits.as_slice()));
    NullBuffer::union(lhs.as_ref(), rhs.as_ref()).map(|nulls| nulls.iter().collect())
}

/// What the library reads of the type of an array before it casts it: the types that a
/// widening starts from, each by itself, and every other type as one.
#[derive(Debug, Clone, Copy, PartialEq, Eq, Structural)]
pub enum SourceKind {
    Int8,
    Int16,
    Int32,
    Int64,
    Float32,
    Date32,
    /// A timestamp of any unit and zone.
    Timestamp,
    /// Precision and scale.
    Decimal128(u8, i8),
    Other,
}

/// What is read of a type before a cast.
pub open spec fn source_kind(t: PhysicalType) -> SourceKind {
    match t {
        PhysicalType::Int8 => SourceKind::Int8,
        PhysicalType::Int16 => SourceKind::Int16,
        PhysicalType::Int32 => SourceKind::Int32,
        PhysicalType::Int64 => SourceKind::Int64,
        PhysicalType::Float32 => SourceKind::Float32,
        PhysicalType::Date32 => SourceKind::Date32,
        PhysicalType::Timestamp(_, _) => SourceKind::Timestamp,
        PhysicalType::Decimal128(p, s) => SourceKind::Decimal128(p, s),
        _ => SourceKind::Other,
    }
}

/// Calls `Array::data_type` on an array and tells the variants apart that a widening starts
/// from. Claimed of it: that it gives the type of the array.
#[verifier::external_body]
pub(crate) fn kind_of(values: &ArrayValues) -> (kind: SourceKind)
    ensures
        kind == source_kind(array_type(*values)),
{
    match values.array.data_type() {
        DataType::Int8 => SourceKind::Int8,
        DataType::Int16 => SourceKind::Int16,
        DataType::Int32 => SourceKind::Int32,
        DataType::Int64 => SourceKind::Int64,
        DataType::Float32 => SourceKind::Float32,
        DataType::Date32 => SourceKind::Date32,
        DataType::Timestamp(_, _) => SourceKind::Timestamp,
        DataType::Decimal128(p, s) => SourceKind::Decimal128(*p, *s),
        _ => SourceKind::Other,
    }
}

/// A type that arrow is asked to cast to.
#[derive(Debug)]
pub enum CastTarget {
    Int16,
    Int32,
    Int64,
    Float64,
    /// Precision and scale.
    Decimal128(u8, i8),
    /// A timestamp in seconds, without a zone.
    Seconds,
    /// A timestamp in microseconds, with its zone where it has one.
    Micros(Option<String>),
}

/// The type that a cast target stands for.
pub open spec fn cast_target_type(target: CastTarget) -> PhysicalType {
    match target {
        CastTarget::Int16 => PhysicalType::Int16,
        CastTarget::Int32 => PhysicalType::Int32,
        CastTarget::Int64 => PhysicalType::Int64,
        CastTarget::Float64 => PhysicalType::Float64,
        CastTarget::Decimal128(p, s) => PhysicalType::Decimal128(p, s),
        CastTarget::Seconds => PhysicalType::Timestamp(TimeUnit::Second, None),
        CastTarget::Micros(zone) => PhysicalType::Timestamp(TimeUnit::Microsecond, zone_view(zone)),
    }
}

/// The precision and scale of the smallest decimal that holds every value of a source, for
/// the sources that have one.
pub open spec fn kind_bounds(kind: SourceKind) -> Option<(int, int)> {
    match kind {
        SourceKind::Decimal128(p, s) => Some((p as int, s as int)),
        SourceKind::Int8 => Some((3, 0)),
        SourceKind::Int16 => Some((5, 0)),
        SourceKind::Int32 => Some((10, 0)),
        SourceKind::Int64 => Some((20, 0)),
        _ => None,
    }
}

/// Whether a decimal is one that arrow accepts: a precision from 1 to 38 and a scale that is
/// not above the precision.
pub open spec fn decimal_is_valid(precision: u8, scale: i8) -> bool {
    1 <= precision <= 38 && scale <= precision
}

/// The casts that arrow is asked for: from a narrower integer to a wider one, from an
/// integer of at most 32 bits or a float to a double, from a timestamp to a timestamp in
/// microseconds without a zone or in UTC, from a date to a timestamp in seconds without a
/// zone, and from an integer or a decimal to a valid decimal that holds every value of it.
/// These are the casts in which arrow computes with checks; in others it may overflow.
pub open spec fn cast_is_admitted(kind: SourceKind, target: PhysicalType) -> bool {
    match target {
        PhysicalType::Int16 => kind is Int8,
        PhysicalType::Int32 => kind is Int8 || kind is Int16,
        PhysicalType::Int64 => kind is Int8 || kind is Int16 || kind is Int32,
        PhysicalType::Float64 => kind is Int8 || kind is Int16 || kind is Int32
            || kind is Float32,
        PhysicalType::Timestamp(unit, zone) => match unit {
            TimeUnit::Microsecond => kind is Timestamp && (zone is None || zone == Some("UTC"@)),
            TimeUnit::Second => kind is Date32 && zone is None,
            _ => false,
        },
        PhysicalType::Decimal128(p, s) => decimal_is_valid(p, s) && (kind_bounds(kind) matches Some(
            (sp, ss),
        ) && p >= sp && s >= ss && p - sp >= s - ss),
        _ => false,
    }
}

/// The types that a plan may ask a cast to: the wider integers, the double, a valid
/// decimal, and the timestamp in microseconds, without a zone or in UTC.
pub open spec fn is_cast_target(target: PhysicalType) -> bool {
    match target {
        PhysicalType::Int16 => true,
        PhysicalType::Int32 => true,
        PhysicalType::Int64 => true,
        PhysicalType::Float64 => true,
        PhysicalType::Decimal128(p, s) => decimal_is_valid(p, s),
        PhysicalType::Timestamp(unit, zone) => unit == TimeUnit::Microsecond && (zone is None
            || zone == Some("UTC"@)),
        _ => false,
    }
}

/// What `arrow::compute::cast` gives for an array and the type `target`: the cast array, or
/// arrow's error.
pub uninterp spec fn cast_outcome(values: ArrayValues, target: PhysicalType) -> Result<
    ArrayValues,
    ArrowError,
>;

/// Calls `arrow::compute::cast` on an array, with arrow's default options. The target is
/// written as arrow's type, variant for variant; `requires` keeps the call to the casts in
/// which arrow computes with checks. Claimed of the call: that the result is a function of
/// the array and of the target type, and, as arrow documents, that a cast array has the rows
/// of the array that was cast and the type that was asked for. Nothing is claimed of its
/// values or of its validity: with its default options arrow makes NULL what does not fit
/// the target.
#[verifier::external_body]
pub(crate) fn cast_values(values: &ArrayValues, target: &CastTarget) -> (res: Result<
    ArrayValues,
    ArrowError,
>)
    requires
        cast_is_admitted(source_kind(array_type(*values)), cast_target_type(*target)),
    ensures
        res == cast_outcome(*values, cast_target_type(*target)),
        res matches Ok(cast) ==> array_len(cast) == array_len(*values) && array_type(cast)
            == cast_target_type(*target),
{
    let to_type = match target {
        CastTarget::Int16 => DataType::Int16,
        CastTarget::Int32 => DataType::Int32,
        CastTarget::Int64 => DataType::Int64,
        CastTarget::Float64 => DataType::Float64,
        CastTarget::Decimal128(p, s) => DataType::Decimal128(*p, *s),
        CastTarget::Seconds => DataType::Timestamp(ArrowTimeUnit::Second, None),
        CastTarget::Micros(zone) => DataType::Timestamp(
            ArrowTimeUnit::Microsecond,
            zone.as_deref().map(Into::into),
        ),
    };
    arrow::compute::cast(values.array.as_ref(), &to_type).map(|array| ArrayValues { array })
}

/// The text that arrow gives for one of its errors.
pub uninterp spec fn arrow_error_text(e: ArrowError) -> Seq<char>;

/// Calls `to_string` on an `arrow::error::ArrowError`, that is its `Display`. Claimed of it:
/// only that the text is a function of the error.
#[verifier::external_body]
pub(crate) fn arrow_error_message(e: &ArrowError) -> (text: String)
    ensures
        text@ == arrow_error_text(*e),
{
    e.to_string()
}

} // verus!
