//! How a logical type is stored, and which stored types can be read as which logical type.
//!
//! A stored type is read as a logical type when it is the type that the logical type is stored
//! as, or when it is narrower and converts to it without loss.

use crate::arrow_calls::decimal_is_valid;
use crate::physical::{
    no_metadata, physical_fields_view, physical_type_view, ArrowDataType, ArrowField,
    PhysicalField, PhysicalType, TimeUnit,
};
use crate::schema::{
    logical_fields_view, logical_type_view, DataType, LogicalField, LogicalType, PrimitiveType,
    StructField,
};
use vstd::prelude::*;
use vstd::string::*;

verus! {

/// How a stored type relates to a logical primitive type.
pub ghost enum Compat {
    /// The stored type is the one that the logical type is stored as.
    Identical,
    /// The stored type is narrower; its values are to be cast to the type given.
    NeedsCast(PhysicalType),
    /// The stored type cannot be read as the logical type.
    Incompatible,
}

/// The executable form of [`Compat`], for the two cases in which the types fit.
#[derive(Debug, PartialEq)]
pub enum DataTypeCompat {
    Identical,
    NeedsCast(ArrowDataType),
}

/// The type that a logical primitive type is stored as.
pub open spec fn primitive_image(p: PrimitiveType) -> PhysicalType {
    match p {
        PrimitiveType::String => PhysicalType::Utf8,
        PrimitiveType::Long => PhysicalType::Int64,
        PrimitiveType::Integer => PhysicalType::Int32,
        PrimitiveType::Short => PhysicalType::Int16,
        PrimitiveType::Byte => PhysicalType::Int8,
        PrimitiveType::Float => PhysicalType::Float32,
        PrimitiveType::Double => PhysicalType::Float64,
        PrimitiveType::Boolean => PhysicalType::Boolean,
        PrimitiveType::Binary => PhysicalType::Binary,
        PrimitiveType::Date => PhysicalType::Date32,
        PrimitiveType::Timestamp => PhysicalType::Timestamp(TimeUnit::Microsecond, Some("UTC"@)),
        PrimitiveType::TimestampNtz => PhysicalType::Timestamp(TimeUnit::Microsecond, None),
        PrimitiveType::Decimal(precision, scale) => PhysicalType::Decimal128(precision, scale),
    }
}

/// The precision and scale of the smallest decimal that holds every value of the stored type,
/// for the stored types that have one.
pub open spec fn decimal_bounds(source: PhysicalType) -> Option<(int, int)> {
    match source {
        PhysicalType::Decimal128(p, s) => Some((p as int, s as int)),
        PhysicalType::Int8 => Some((3, 0)),
        PhysicalType::Int16 => Some((5, 0)),
        PhysicalType::Int32 => Some((10, 0)),
        PhysicalType::Int64 => Some((20, 0)),
        _ => None,
    }
}

/// Whether every value of the stored type fits a decimal of the given precision and scale,
/// and the decimal is a valid one: neither digits before the point nor digits after it are
/// lost.
pub open spec fn widens_to_decimal(source: PhysicalType, precision: u8, scale: i8) -> bool {
    decimal_is_valid(precision, scale) && match decimal_bounds(source) {
        Some((p, s)) => precision >= p && scale >= s && precision - p >= scale - s,
        None => false,
    }
}

/// Whether values of the stored type `source` convert to `target` without loss: a wider
/// integer, a double from an integer of at most 32 bits or from a float, a timestamp from a
/// timestamp or (where it has no zone) from a date, a decimal that holds every value.
pub open spec fn widens(source: PhysicalType, target: PhysicalType) -> bool {
    match target {
        PhysicalType::Int16 => source is Int8,
        PhysicalType::Int32 => source is Int8 || source is Int16,
        PhysicalType::Int64 => source is Int8 || source is Int16 || source is Int32,
        PhysicalType::Float64 => source is Int8 || source is Int16 || source is Int32
            || source is Float32,
        PhysicalType::Timestamp(_, zone) => source is Timestamp || (source is Date32
            && zone is None),
        PhysicalType::Decimal128(p, s) => widens_to_decimal(source, p, s),
        _ => false,
    }
}

/// How the stored type `physical` relates to the logical primitive type `requested`.
pub open spec fn compat(requested: PrimitiveType, physical: PhysicalType) -> Compat {
    let target = primitive_image(requested);
    if physical == target {
        Compat::Identical
    } else if widens(physical, target) {
        Compat::NeedsCast(target)
    } else {
        Compat::Incompatible
    }
}

/// How a stored type without children relates to a logical type. Only a primitive logical
/// type can be read from it.
pub open spec fn leaf_compat(requested: LogicalType, physical: PhysicalType) -> Compat {
    match requested {
        LogicalType::Primitive(p) => compat(p, physical),
        _ => Compat::Incompatible,
    }
}

/// The type that a logical type is stored as. A list holds a field named `element`; a map
/// holds a field named `key_value`, a struct of `key` and `value`; a variant is stored as its
/// struct.
pub open spec fn logical_image(t: LogicalType) -> PhysicalType
    decreases t,
{
    match t {
        LogicalType::Primitive(p) => primitive_image(p),
        LogicalType::Array(e, contains_null) => PhysicalType::List(
            Box::new(
                PhysicalField {
                    name: "element"@,
                    data_type: logical_image(*e),
                    nullable: contains_null,
                    metadata: Seq::empty(),
                },
            ),
        ),
        LogicalType::Struct(fs) => PhysicalType::Struct(fields_image(fs)),
        LogicalType::MapOf(k, v, value_contains_null) => PhysicalType::MapOf(
            Box::new(
                PhysicalField {
                    name: "key_value"@,
                    data_type: PhysicalType::Struct(
                        seq![
                            PhysicalField {
                                name: "key"@,
                                data_type: logical_image(*k),
                                nullable: false,
                                metadata: Seq::empty(),
                            },
                            PhysicalField {
                                name: "value"@,
                                data_type: logical_image(*v),
                                nullable: value_contains_null,
                                metadata: Seq::empty(),
                            },
                        ],
                    ),
                    nullable: false,
                    metadata: Seq::empty(),
                },
            ),
            false,
        ),
        LogicalType::Variant(fs) => PhysicalType::Struct(fields_image(fs)),
    }
}

/// The field that a logical field is stored as: the same name and nullability, the stored
/// type.
pub open spec fn field_image(f: LogicalField) -> PhysicalField
    decreases f,
{
    PhysicalField {
        name: f.name,
        data_type: logical_image(f.data_type),
        nullable: f.nullable,
        metadata: Seq::empty(),
    }
}

/// The fields that the fields of one level are stored as, in order.
pub open spec fn fields_image(fs: Seq<LogicalField>) -> Seq<PhysicalField>
    decreases fs,
{
    Seq::new(
        fs.len(),
        |i: int|
            if 0 <= i < fs.len() {
                field_image(fs[i])
            } else {
                arbitrary()
            },
    )
}

/// The type that a logical primitive type is stored as.
pub fn physical_type_of_primitive(p: &PrimitiveType) -> (t: ArrowDataType)
    ensures
        t@ == primitive_image(*p),
{
    match p {
        PrimitiveType::String => ArrowDataType::Utf8,
        PrimitiveType::Long => ArrowDataType::Int64,
        PrimitiveType::Integer => ArrowDataType::Int32,
        PrimitiveType::Short => ArrowDataType::Int16,
        PrimitiveType::Byte => ArrowDataType::Int8,
        PrimitiveType::Float => ArrowDataType::Float32,
        PrimitiveType::Double => ArrowDataType::Float64,
        PrimitiveType::Boolean => ArrowDataType::Boolean,
        PrimitiveType::Binary => ArrowDataType::Binary,
        PrimitiveType::Date => ArrowDataType::Date32,
        PrimitiveType::Timestamp => ArrowDataType::Timestamp(
            TimeUnit::Microsecond,
            Some(String::from_str("UTC")),
        ),
        PrimitiveType::TimestampNtz => ArrowDataType::Timestamp(TimeUnit::Microsecond, None),
        PrimitiveType::Decimal(precision, scale) => ArrowDataType::Decimal128(
            *precision,
            *scale,
        ),
    }
}

/// The type that a logical type is stored as.
pub fn physical_type_of(t: &DataType) -> (res: ArrowDataType)
    ensures
        res@ == logical_image(t@),
    decreases t,
{
    proof {
        reveal_with_fuel(logical_type_view, 2);
        reveal_with_fuel(physical_type_view, 3);
        reveal_with_fuel(logical_image, 2);
    }
    match t {
        DataType::Primitive(p) => physical_type_of_primitive(p),
        DataType::Array(a) => {
            let element = physical_type_of(&a.element_type);
            ArrowDataType::List(
                Box::new(
                    ArrowField {
                        name: String::from_str("element"),
                        data_type: element,
                        nullable: a.contains_null,
                        metadata: no_metadata(),
                    },
                ),
            )
        },
        DataType::Struct(s) => ArrowDataType::Struct(physical_fields_of(&s.fields)),
        DataType::MapOf(m) => {
            let key = ArrowField {
                name: String::from_str("key"),
                data_type: physical_type_of(&m.key_type),
                nullable: false,
                metadata: no_metadata(),
            };
            let value = ArrowField {
                name: String::from_str("value"),
                data_type: physical_type_of(&m.value_type),
                nullable: m.value_contains_null,
                metadata: no_metadata(),
            };
            let mut entries: Vec<ArrowField> = Vec::new();
            entries.push(key);
            entries.push(value);
            let res = ArrowDataType::MapOf(
                Box::new(
                    ArrowField {
                        name: String::from_str("key_value"),
                        data_type: ArrowDataType::Struct(entries),
                        nullable: false,
                        metadata: no_metadata(),
                    },
                ),
                false,
            );
            proof {
                let got = physical_fields_view(entries);
                let want = logical_image(t@)->MapOf_0.data_type->Struct_0;
                assert(got =~= want);
            }
            res
        },
        DataType::Variant(s) => ArrowDataType::Struct(physical_fields_of(&s.fields)),
    }
}

/// The field that a logical field is stored as.
pub fn physical_field_of(f: &StructField) -> (res: ArrowField)
    ensures
        res@ == field_image(f@),
    decreases f,
{
    ArrowField {
        name: f.name.clone(),
        data_type: physical_type_of(&f.data_type),
        nullable: f.nullable,
        metadata: no_metadata(),
    }
}

/// The fields that the fields of one level are stored as, in order.
pub fn physical_fields_of(fs: &Vec<StructField>) -> (res: Vec<ArrowField>)
    ensures
        physical_fields_view(res) == fields_image(logical_fields_view(*fs)),
    decreases fs,
{
    let mut res: Vec<ArrowField> = Vec::new();
    let mut i: usize = 0;
    while i < fs.len()
        invariant
            i <= fs.len(),
            res.len() == i,
            forall|j: int| 0 <= j < i ==> (#[trigger] res[j])@ == field_image(fs[j]@),
        decreases fs.len() - i,
    {
        let field = physical_field_of(&fs[i]);
        res.push(field);
        i += 1;
    }
    assert(physical_fields_view(res) =~= fields_image(logical_fields_view(*fs)));
    res
}

/// Whether every value of the stored type fits a decimal of the given precision and scale.
fn fits_decimal(source: &ArrowDataType, precision: u8, scale: i8) -> (b: bool)
    ensures
        b == widens_to_decimal(source@, precision, scale),
{
    let (p, s): (u8, i8) = match source {
        ArrowDataType::Decimal128(p, s) => (*p, *s),
        ArrowDataType::Int8 => (3, 0),
        ArrowDataType::Int16 => (5, 0),
        ArrowDataType::Int32 => (10, 0),
        ArrowDataType::Int64 => (20, 0),
        _ => { return false; },
    };
    1 <= precision && precision <= 38 && scale as i16 <= precision as i16 && precision >= p
        && scale >= s && (precision - p) as i16 >= scale as i16 - s as i16
}

/// Whether the stored type is the one that the logical primitive type is stored as.
fn is_image(requested: &PrimitiveType, physical: &ArrowDataType) -> (b: bool)
    ensures
        b == (physical@ == primitive_image(*requested)),
{
    match (requested, physical) {
        (PrimitiveType::String, ArrowDataType::Utf8) => true,
        (PrimitiveType::Long, ArrowDataType::Int64) => true,
        (PrimitiveType::Integer, ArrowDataType::Int32) => true,
        (PrimitiveType::Short, ArrowDataType::Int16) => true,
        (PrimitiveType::Byte, ArrowDataType::Int8) => true,
        (PrimitiveType::Float, ArrowDataType::Float32) => true,
        (PrimitiveType::Double, ArrowDataType::Float64) => true,
        (PrimitiveType::Boolean, ArrowDataType::Boolean) => true,
        (PrimitiveType::Binary, ArrowDataType::Binary) => true,
        (PrimitiveType::Date, ArrowDataType::Date32) => true,
        (PrimitiveType::Timestamp, ArrowDataType::Timestamp(TimeUnit::Microsecond, Some(zone))) => {
            let utc = String::from_str("UTC");
            *zone == utc
        },
        (PrimitiveType::TimestampNtz, ArrowDataType::Timestamp(TimeUnit::Microsecond, None)) => true,
        (PrimitiveType::Decimal(p, s), ArrowDataType::Decimal128(q, t)) => *p == *q && *s == *t,
        _ => false,
    }
}

/// Whether values of the stored type convert without loss to the type that the logical
/// primitive type is stored as.
fn is_widening(requested: &PrimitiveType, physical: &ArrowDataType) -> (b: bool)
    ensures
        b == widens(physical@, primitive_image(*requested)),
{
    match requested {
        PrimitiveType::Short => match physical {
            ArrowDataType::Int8 => true,
            _ => false,
        },
        PrimitiveType::Integer => match physical {
            ArrowDataType::Int8 | ArrowDataType::Int16 => true,
            _ => false,
        },
        PrimitiveType::Long => match physical {
            ArrowDataType::Int8 | ArrowDataType::Int16 | ArrowDataType::Int32 => true,
            _ => false,
        },
        PrimitiveType::Double => match physical {
            ArrowDataType::Int8
            | ArrowDataType::Int16
            | ArrowDataType::Int32
            | ArrowDataType::Float32 => true,
            _ => false,
        },
        PrimitiveType::Timestamp => match physical {
            ArrowDataType::Timestamp(_, _) => true,
            _ => false,
        },
        PrimitiveType::TimestampNtz => match physical {
            ArrowDataType::Timestamp(_, _) | ArrowDataType::Date32 => true,
            _ => false,
        },
        PrimitiveType::Decimal(p, s) => fits_decimal(physical, *p, *s),
        _ => false,
    }
}

/// Classifies a stored type without children against a logical type: `None` where the stored
/// type cannot be read as the logical type.
pub fn ensure_data_types(requested: &DataType, physical: &ArrowDataType) -> (res: Option<
    DataTypeCompat,
>)
    ensures
        match leaf_compat(requested@, physical@) {
            Compat::Identical => res == Some(DataTypeCompat::Identical),
            Compat::NeedsCast(target) => res matches Some(DataTypeCompat::NeedsCast(t)) && t@
                == target,
            Compat::Incompatible => res is None,
        },
{
    match requested {
        DataType::Primitive(p) => {
            if is_image(p, physical) {
                Some(DataTypeCompat::Identical)
            } else if is_widening(p, physical) {
                Some(DataTypeCompat::NeedsCast(physical_type_of_primitive(p)))
            } else {
                None
            }
        },
        _ => None,
    }
}

} // verus!
