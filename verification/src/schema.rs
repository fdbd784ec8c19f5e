//! The logical schema: the fields that a reader asks for, in the order it wants them.
//!
//! [`DataType`], [`StructField`] and [`StructType`] are the executable values;
//! [`LogicalType`] and [`LogicalField`] are their mathematical views.

use vstd::prelude::*;
use vstd::string::*;

verus! {

/// A type without children.
#[derive(Debug, Clone, Copy, PartialEq, Eq, Structural)]
pub enum PrimitiveType {
    String,
    Long,
    Integer,
    Short,
    Byte,
    Float,
    Double,
    Boolean,
    Binary,
    Date,
    Timestamp,
    TimestampNtz,
    /// Precision and scale.
    Decimal(u8, i8),
}

/// The type of a logical field.
#[derive(Debug, PartialEq)]
pub enum DataType {
    Primitive(PrimitiveType),
    Array(Box<ArrayType>),
    Struct(Box<StructType>),
    MapOf(Box<MapType>),
    /// A variant value, with the struct that stores it.
    Variant(Box<StructType>),
}

/// A list: the type of its elements and whether an element may be NULL.
#[derive(Debug, PartialEq)]
pub struct ArrayType {
    pub element_type: DataType,
    pub contains_null: bool,
}

/// A map: the types of its keys and values and whether a value may be NULL. A key never is.
#[derive(Debug, PartialEq)]
pub struct MapType {
    pub key_type: DataType,
    pub value_type: DataType,
    pub value_contains_null: bool,
}

/// A named logical field.
#[derive(Debug, PartialEq)]
pub struct StructField {
    pub name: String,
    pub data_type: DataType,
    pub nullable: bool,
}

/// The fields of one level of a logical schema, in the order in which they are wanted.
#[derive(Debug, PartialEq)]
pub struct StructType {
    pub fields: Vec<StructField>,
}

/// The mathematical view of a [`DataType`].
pub ghost enum LogicalType {
    Primitive(PrimitiveType),
    /// Element type and whether an element may be NULL.
    Array(Box<LogicalType>, bool),
    Struct(Seq<LogicalField>),
    /// Key type, value type and whether a value may be NULL.
    MapOf(Box<LogicalType>, Box<LogicalType>, bool),
    Variant(Seq<LogicalField>),
}

/// The mathematical view of a [`StructField`].
pub ghost struct LogicalField {
    pub name: Seq<char>,
    pub data_type: LogicalType,
    pub nullable: bool,
}

/// The view of a logical type.
pub open spec fn logical_type_view(t: DataType) -> LogicalType
    decreases t,
{
    match t {
        DataType::Primitive(p) => LogicalType::Primitive(p),
        DataType::Array(a) => LogicalType::Array(
            Box::new(logical_type_view(a.element_type)),
            a.contains_null,
        ),
        DataType::Struct(s) => LogicalType::Struct(logical_fields_view(s.fields)),
        DataType::MapOf(m) => LogicalType::MapOf(
            Box::new(logical_type_view(m.key_type)),
            Box::new(logical_type_view(m.value_type)),
            m.value_contains_null,
        ),
        DataType::Variant(s) => LogicalType::Variant(logical_fields_view(s.fields)),
    }
}

/// The view of a logical field.
pub open spec fn logical_field_view(f: StructField) -> LogicalField
    decreases f,
{
    LogicalField { name: f.name@, data_type: logical_type_view(f.data_type), nullable: f.nullable }
}

/// The views of the fields of one level, in order.
pub open spec fn logical_fields_view(fs: Vec<StructField>) -> Seq<LogicalField>
    decreases fs,
{
    Seq::new(
        fs.len() as nat,
        |i: int|
            if 0 <= i < fs.len() {
                logical_field_view(fs[i])
            } else {
                arbitrary()
            },
    )
}

impl View for DataType {
    type V = LogicalType;

    open spec fn view(&self) -> LogicalType {
        logical_type_view(*self)
    }
}

impl View for StructField {
    type V = LogicalField;

    open spec fn view(&self) -> LogicalField {
        logical_field_view(*self)
    }
}

impl View for StructType {
    type V = Seq<LogicalField>;

    open spec fn view(&self) -> Seq<LogicalField> {
        logical_fields_view(self.fields)
    }
}

/// The position of the first field with the given name, if there is one.
pub open spec fn position_of(fields: Seq<LogicalField>, name: Seq<char>) -> Option<int>
    decreases fields.len(),
{
    if fields.len() == 0 {
        None
    } else {
        match position_of(fields.drop_last(), name) {
            Some(i) => Some(i),
            None => if fields.last().name == name {
                Some(fields.len() - 1)
            } else {
                None
            },
        }
    }
}

/// No two fields of the level have the same name.
pub open spec fn names_unique(fields: Seq<LogicalField>) -> bool {
    forall|i: int, j: int|
        0 <= i < fields.len() && 0 <= j < fields.len() && i != j ==> fields[i].name
            != fields[j].name
}

/// A logical type is well formed when no level in it names a field twice.
pub open spec fn logical_type_wf(t: LogicalType) -> bool
    decreases t,
{
    match t {
        LogicalType::Primitive(_) => true,
        LogicalType::Array(e, _) => logical_type_wf(*e),
        LogicalType::Struct(fs) => logical_fields_wf(fs),
        LogicalType::MapOf(k, v, _) => logical_type_wf(*k) && logical_type_wf(*v),
        LogicalType::Variant(fs) => logical_fields_wf(fs),
    }
}

/// A level is well formed when its names are unique and each of its types is well formed.
pub open spec fn logical_fields_wf(fs: Seq<LogicalField>) -> bool
    decreases fs,
{
    &&& names_unique(fs)
    &&& forall|i: int| 0 <= i < fs.len() ==> logical_type_wf((#[trigger] fs[i]).data_type)
}

/// The struct that stores a variant that is not shredded: its metadata and its value, both
/// binary and never NULL.
pub open spec fn unshredded_variant_fields() -> Seq<LogicalField> {
    seq![
        LogicalField {
            name: "metadata"@,
            data_type: LogicalType::Primitive(PrimitiveType::Binary),
            nullable: false,
        },
        LogicalField {
            name: "value"@,
            data_type: LogicalType::Primitive(PrimitiveType::Binary),
            nullable: false,
        },
    ]
}

/// What `position_of` finds: the first position that holds the name.
pub proof fn lemma_position_of(fields: Seq<LogicalField>, name: Seq<char>)
    ensures
        match position_of(fields, name) {
            Some(i) => 0 <= i < fields.len() && fields[i].name == name && forall|j: int|
                0 <= j < i ==> fields[j].name != name,
            None => forall|j: int| 0 <= j < fields.len() ==> fields[j].name != name,
        },
    decreases fields.len(),
{
    if fields.len() > 0 {
        let init = fields.drop_last();
        lemma_position_of(init, name);
        assert(forall|j: int| 0 <= j < init.len() ==> init[j] == fields[j]);
    }
}

impl DataType {
    pub fn string() -> (t: DataType)
        ensures
            t@ == LogicalType::Primitive(PrimitiveType::String),
    {
        DataType::Primitive(PrimitiveType::String)
    }

    pub fn long() -> (t: DataType)
        ensures
            t@ == LogicalType::Primitive(PrimitiveType::Long),
    {
        DataType::Primitive(PrimitiveType::Long)
    }

    pub fn integer() -> (t: DataType)
        ensures
            t@ == LogicalType::Primitive(PrimitiveType::Integer),
    {
        DataType::Primitive(PrimitiveType::Integer)
    }

    pub fn short() -> (t: DataType)
        ensures
            t@ == LogicalType::Primitive(PrimitiveType::Short),
    {
        DataType::Primitive(PrimitiveType::Short)
    }

    pub fn byte() -> (t: DataType)
        ensures
            t@ == LogicalType::Primitive(PrimitiveType::Byte),
    {
        DataType::Primitive(PrimitiveType::Byte)
    }

    pub fn float() -> (t: DataType)
        ensures
            t@ == LogicalType::Primitive(PrimitiveType::Float),
    {
        DataType::Primitive(PrimitiveType::Float)
    }

    pub fn double() -> (t: DataType)
        ensures
            t@ == LogicalType::Primitive(PrimitiveType::Double),
    {
        DataType::Primitive(PrimitiveType::Double)
    }

    pub fn boolean() -> (t: DataType)
        ensures
            t@ == LogicalType::Primitive(PrimitiveType::Boolean),
    {
        DataType::Primitive(PrimitiveType::Boolean)
    }

    pub fn binary() -> (t: DataType)
        ensures
            t@ == LogicalType::Primitive(PrimitiveType::Binary),
    {
        DataType::Primitive(PrimitiveType::Binary)
    }

    pub fn date() -> (t: DataType)
        ensures
            t@ == LogicalType::Primitive(PrimitiveType::Date),
    {
        DataType::Primitive(PrimitiveType::Date)
    }

    pub fn timestamp() -> (t: DataType)
        ensures
            t@ == LogicalType::Primitive(PrimitiveType::Timestamp),
    {
        DataType::Primitive(PrimitiveType::Timestamp)
    }

    pub fn timestamp_ntz() -> (t: DataType)
        ensures
            t@ == LogicalType::Primitive(PrimitiveType::TimestampNtz),
    {
        DataType::Primitive(PrimitiveType::TimestampNtz)
    }

    pub fn decimal(precision: u8, scale: i8) -> (t: DataType)
        ensures
            t@ == LogicalType::Primitive(PrimitiveType::Decimal(precision, scale)),
    {
        DataType::Primitive(PrimitiveType::Decimal(precision, scale))
    }

    /// The type of a variant that is stored whole, as its metadata and its value.
    pub fn unshredded_variant() -> (t: DataType)
        ensures
            t@ == LogicalType::Variant(unshredded_variant_fields()),
    {
        let mut fields: Vec<StructField> = Vec::new();
        fields.push(StructField::not_null("metadata", DataType::binary()));
        fields.push(StructField::not_null("value", DataType::binary()));
        let t = DataType::Variant(Box::new(StructType { fields }));
        proof {
            reveal_with_fuel(logical_type_view, 2);
            assert(t@->Variant_0 =~= unshredded_variant_fields());
        }
        t
    }

    /// Whether this is the type of a variant that is stored whole.
    pub fn is_unshredded_variant(&self) -> (b: bool)
        ensures
            b == (self@ == LogicalType::Variant(unshredded_variant_fields())),
    {
        match self {
            DataType::Variant(st) => {
                proof {
                    reveal_with_fuel(logical_type_view, 2);
                }
                if st.fields.len() != 2 {
                    assert(self@->Variant_0.len() != 2);
                    return false;
                }
                let metadata = String::from_str("metadata");
                let value = String::from_str("value");
                let first = &st.fields[0];
                let second = &st.fields[1];
                let shape = first.name == metadata && !first.nullable && second.name == value
                    && !second.nullable;
                let types = match (&first.data_type, &second.data_type) {
                    (
                        DataType::Primitive(PrimitiveType::Binary),
                        DataType::Primitive(PrimitiveType::Binary),
                    ) => true,
                    _ => false,
                };
                proof {
                    let fs = self@->Variant_0;
                    assert(fs[0] == first@);
                    assert(fs[1] == second@);
                    if shape && types {
                        assert(fs =~= unshredded_variant_fields());
                    }
                }
                shape && types
            },
            _ => false,
        }
    }
}

impl ArrayType {
    pub fn new(element_type: DataType, contains_null: bool) -> (a: ArrayType)
        ensures
            a.element_type == element_type,
            a.contains_null == contains_null,
    {
        ArrayType { element_type, contains_null }
    }
}

impl MapType {
    pub fn new(key_type: DataType, value_type: DataType, value_contains_null: bool) -> (m: MapType)
        ensures
            m.key_type == key_type,
            m.value_type == value_type,
            m.value_contains_null == value_contains_null,
    {
        MapType { key_type, value_type, value_contains_null }
    }
}

impl StructField {
    /// A field with the given name, type and nullability.
    pub fn new(name: &str, data_type: DataType, nullable: bool) -> (f: StructField)
        ensures
            f@ == (LogicalField { name: name@, data_type: data_type@, nullable }),
    {
        StructField { name: name.to_owned(), data_type, nullable }
    }

    /// A field that may hold NULL.
    pub fn nullable(name: &str, data_type: DataType) -> (f: StructField)
        ensures
            f@ == (LogicalField { name: name@, data_type: data_type@, nullable: true }),
    {
        StructField::new(name, data_type, true)
    }

    /// A field that never holds NULL.
    pub fn not_null(name: &str, data_type: DataType) -> (f: StructField)
        ensures
            f@ == (LogicalField { name: name@, data_type: data_type@, nullable: false }),
    {
        StructField::new(name, data_type, false)
    }
}

impl StructType {
    /// The level that holds the given fields, in their order.
    pub fn new(fields: Vec<StructField>) -> (s: StructType)
        ensures
            s.fields == fields,
    {
        StructType { fields }
    }

    /// The level that holds the given fields, in their order, where no two of them have the
    /// same name; `None` where two have.
    pub fn try_new(fields: Vec<StructField>) -> (res: Option<StructType>)
        ensures
            names_unique(logical_fields_view(fields)) ==> (res matches Some(s) && s.fields
                == fields),
            !names_unique(logical_fields_view(fields)) ==> res is None,
    {
        let s = StructType { fields };
        if s.has_unique_names() {
            Some(s)
        } else {
            None
        }
    }

    /// Whether no two fields of the level have the same name.
    pub fn has_unique_names(&self) -> (b: bool)
        ensures
            b == names_unique(self@),
    {
        let ghost fs = self@;
        let n = self.fields.len();
        let mut i: usize = 0;
        while i < n
            invariant
                i <= n,
                n == self.fields.len(),
                fs == self@,
                fs.len() == n,
                forall|a: int, b: int| 0 <= a < i && 0 <= b < a ==> fs[a].name != fs[b].name,
            decreases n - i,
        {
            let mut j: usize = 0;
            while j < i
                invariant
                    j <= i,
                    i < n,
                    n == self.fields.len(),
                    fs == self@,
                    fs.len() == n,
                    forall|b: int| 0 <= b < j ==> fs[i as int].name != fs[b].name,
                decreases i - j,
            {
                assert(fs[j as int] == self.fields[j as int]@);
                if self.fields[i].name == self.fields[j].name {
                    return false;
                }
                j += 1;
            }
            i += 1;
        }
        assert forall|a: int, b: int|
            0 <= a < fs.len() && 0 <= b < fs.len() && a != b implies fs[a].name != fs[b].name by {}
        true
    }
}

impl From<StructType> for DataType {
    fn from(s: StructType) -> (t: DataType) {
        DataType::Struct(Box::new(s))
    }
}

impl vstd::std_specs::convert::FromSpecImpl<StructType> for DataType {
    open spec fn obeys_from_spec() -> bool {
        true
    }

    open spec fn from_spec(s: StructType) -> DataType {
        DataType::Struct(Box::new(s))
    }
}

impl From<ArrayType> for DataType {
    fn from(a: ArrayType) -> (t: DataType) {
        DataType::Array(Box::new(a))
    }
}

impl vstd::std_specs::convert::FromSpecImpl<ArrayType> for DataType {
    open spec fn obeys_from_spec() -> bool {
        true
    }

    open spec fn from_spec(a: ArrayType) -> DataType {
        DataType::Array(Box::new(a))
    }
}

impl From<MapType> for DataType {
    fn from(m: MapType) -> (t: DataType) {
        DataType::MapOf(Box::new(m))
    }
}

impl vstd::std_specs::convert::FromSpecImpl<MapType> for DataType {
    open spec fn obeys_from_spec() -> bool {
        true
    }

    open spec fn from_spec(m: MapType) -> DataType {
        DataType::MapOf(Box::new(m))
    }
}

} // verus!
