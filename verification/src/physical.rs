//! The physical schema: the types and fields of a columnar file, as its metadata gives them.
//!
//! [`ArrowDataType`] and [`ArrowField`] are the executable values; [`PhysicalType`] and
//! [`PhysicalField`] are their mathematical views, over which every contract of the planner
//! is stated.

use vstd::prelude::*;

verus! {

/// The resolution of a temporal type.
#[derive(Debug, Clone, Copy, PartialEq, Eq, Structural)]
pub enum TimeUnit {
    Second,
    Millisecond,
    Microsecond,
    Nanosecond,
}

/// The layout of an interval type.
#[derive(Debug, Clone, Copy, PartialEq, Eq, Structural)]
pub enum IntervalUnit {
    YearMonth,
    DayTime,
    MonthDayNano,
}

/// The layout of a union type.
#[derive(Debug, Clone, Copy, PartialEq, Eq, Structural)]
pub enum UnionMode {
    Sparse,
    Dense,
}

/// The type of a physical column.
#[derive(Debug, PartialEq)]
pub enum ArrowDataType {
    Null,
    Boolean,
    Int8,
    Int16,
    Int32,
    Int64,
    UInt8,
    UInt16,
    UInt32,
    UInt64,
    Float16,
    Float32,
    Float64,
    /// A timestamp with its resolution and, where it has one, its time zone.
    Timestamp(TimeUnit, Option<String>),
    Date32,
    Date64,
    Time32(TimeUnit),
    Time64(TimeUnit),
    Duration(TimeUnit),
    Interval(IntervalUnit),
    Binary,
    FixedSizeBinary(i32),
    LargeBinary,
    BinaryView,
    Utf8,
    LargeUtf8,
    Utf8View,
    List(Box<ArrowField>),
    ListView(Box<ArrowField>),
    FixedSizeList(Box<ArrowField>, i32),
    LargeList(Box<ArrowField>),
    LargeListView(Box<ArrowField>),
    Struct(Vec<ArrowField>),
    /// The fields of a union, the type id of each, and the layout.
    Union(Vec<ArrowField>, Vec<i8>, UnionMode),
    /// Key type and value type.
    Dictionary(Box<ArrowDataType>, Box<ArrowDataType>),
    /// Precision and scale.
    Decimal128(u8, i8),
    /// Precision and scale.
    Decimal256(u8, i8),
    /// The entries field and whether the keys are sorted.
    MapOf(Box<ArrowField>, bool),
    /// The run-ends field and the values field.
    RunEndEncoded(Box<ArrowField>, Box<ArrowField>),
}

/// A named physical column: its name, its type, and whether it may hold NULL.
#[derive(Debug, PartialEq)]
pub struct ArrowField {
    pub name: String,
    pub data_type: ArrowDataType,
    pub nullable: bool,
    /// What else the file says of the column, as keys and values. It is carried along.
    pub metadata: Vec<(String, String)>,
}

/// The mathematical view of an [`ArrowDataType`].
pub ghost enum PhysicalType {
    Null,
    Boolean,
    Int8,
    Int16,
    Int32,
    Int64,
    UInt8,
    UInt16,
    UInt32,
    UInt64,
    Float16,
    Float32,
    Float64,
    Timestamp(TimeUnit, Option<Seq<char>>),
    Date32,
    Date64,
    Time32(TimeUnit),
    Time64(TimeUnit),
    Duration(TimeUnit),
    Interval(IntervalUnit),
    Binary,
    FixedSizeBinary(i32),
    LargeBinary,
    BinaryView,
    Utf8,
    LargeUtf8,
    Utf8View,
    List(Box<PhysicalField>),
    ListView(Box<PhysicalField>),
    FixedSizeList(Box<PhysicalField>, i32),
    LargeList(Box<PhysicalField>),
    LargeListView(Box<PhysicalField>),
    Struct(Seq<PhysicalField>),
    Union(Seq<PhysicalField>, Seq<i8>, UnionMode),
    Dictionary(Box<PhysicalType>, Box<PhysicalType>),
    Decimal128(u8, i8),
    Decimal256(u8, i8),
    MapOf(Box<PhysicalField>, bool),
    RunEndEncoded(Box<PhysicalField>, Box<PhysicalField>),
}

/// The mathematical view of an [`ArrowField`].
pub ghost struct PhysicalField {
    pub name: Seq<char>,
    pub data_type: PhysicalType,
    pub nullable: bool,
    pub metadata: Seq<(Seq<char>, Seq<char>)>,
}

/// The view of the metadata of a field: the characters of each key and value.
pub open spec fn metadata_view(metadata: Vec<(String, String)>) -> Seq<(Seq<char>, Seq<char>)> {
    Seq::new(metadata.len() as nat, |i: int| (metadata[i].0@, metadata[i].1@))
}

/// The view of a time zone: its characters.
pub open spec fn zone_view(tz: Option<String>) -> Option<Seq<char>> {
    match tz {
        Some(s) => Some(s@),
        None => None,
    }
}

/// The view of a physical type: the same tree, with sequences for vectors and characters for
/// strings.
pub open spec fn physical_type_view(t: ArrowDataType) -> PhysicalType
    decreases t,
{
    match t {
        ArrowDataType::Null => PhysicalType::Null,
        ArrowDataType::Boolean => PhysicalType::Boolean,
        ArrowDataType::Int8 => PhysicalType::Int8,
        ArrowDataType::Int16 => PhysicalType::Int16,
        ArrowDataType::Int32 => PhysicalType::Int32,
        ArrowDataType::Int64 => PhysicalType::Int64,
        ArrowDataType::UInt8 => PhysicalType::UInt8,
        ArrowDataType::UInt16 => PhysicalType::UInt16,
        ArrowDataType::UInt32 => PhysicalType::UInt32,
        ArrowDataType::UInt64 => PhysicalType::UInt64,
        ArrowDataType::Float16 => PhysicalType::Float16,
        ArrowDataType::Float32 => PhysicalType::Float32,
        ArrowDataType::Float64 => PhysicalType::Float64,
        ArrowDataType::Timestamp(u, tz) => PhysicalType::Timestamp(u, zone_view(tz)),
        ArrowDataType::Date32 => PhysicalType::Date32,
        ArrowDataType::Date64 => PhysicalType::Date64,
        ArrowDataType::Time32(u) => PhysicalType::Time32(u),
        ArrowDataType::Time64(u) => PhysicalType::Time64(u),
        ArrowDataType::Duration(u) => PhysicalType::Duration(u),
        ArrowDataType::Interval(u) => PhysicalType::Interval(u),
        ArrowDataType::Binary => PhysicalType::Binary,
        ArrowDataType::FixedSizeBinary(n) => PhysicalType::FixedSizeBinary(n),
        ArrowDataType::LargeBinary => PhysicalType::LargeBinary,
        ArrowDataType::BinaryView => PhysicalType::BinaryView,
        ArrowDataType::Utf8 => PhysicalType::Utf8,
        ArrowDataType::LargeUtf8 => PhysicalType::LargeUtf8,
        ArrowDataType::Utf8View => PhysicalType::Utf8View,
        ArrowDataType::List(f) => PhysicalType::List(Box::new(physical_field_view(*f))),
        ArrowDataType::ListView(f) => PhysicalType::ListView(Box::new(physical_field_view(*f))),
        ArrowDataType::FixedSizeList(f, n) => PhysicalType::FixedSizeList(
            Box::new(physical_field_view(*f)),
            n,
        ),
        ArrowDataType::LargeList(f) => PhysicalType::LargeList(Box::new(physical_field_view(*f))),
        ArrowDataType::LargeListView(f) => PhysicalType::LargeListView(
            Box::new(physical_field_view(*f)),
        ),
        ArrowDataType::Struct(fs) => PhysicalType::Struct(physical_fields_view(fs)),
        ArrowDataType::Union(fs, ids, mode) => PhysicalType::Union(
            physical_fields_view(fs),
            ids@,
            mode,
        ),
        ArrowDataType::Dictionary(k, v) => PhysicalType::Dictionary(
            Box::new(physical_type_view(*k)),
            Box::new(physical_type_view(*v)),
        ),
        ArrowDataType::Decimal128(p, s) => PhysicalType::Decimal128(p, s),
        ArrowDataType::Decimal256(p, s) => PhysicalType::Decimal256(p, s),
        ArrowDataType::MapOf(f, sorted) => PhysicalType::MapOf(
            Box::new(physical_field_view(*f)),
            sorted,
        ),
        ArrowDataType::RunEndEncoded(r, v) => PhysicalType::RunEndEncoded(
            Box::new(physical_field_view(*r)),
            Box::new(physical_field_view(*v)),
        ),
    }
}

/// The view of a physical field.
pub open spec fn physical_field_view(f: ArrowField) -> PhysicalField
    decreases f,
{
    PhysicalField {
        name: f.name@,
        data_type: physical_type_view(f.data_type),
        nullable: f.nullable,
        metadata: metadata_view(f.metadata),
    }
}

/// The views of the fields of one level, in order.
pub open spec fn physical_fields_view(fs: Vec<ArrowField>) -> Seq<PhysicalField>
    decreases fs,
{
    Seq::new(
        fs.len() as nat,
        |i: int|
            if 0 <= i < fs.len() {
                physical_field_view(fs[i])
            } else {
                arbitrary()
            },
    )
}

impl View for ArrowDataType {
    type V = PhysicalType;

    open spec fn view(&self) -> PhysicalType {
        physical_type_view(*self)
    }
}

impl View for ArrowField {
    type V = PhysicalField;

    open spec fn view(&self) -> PhysicalField {
        physical_field_view(*self)
    }
}

impl ArrowField {
    /// A field with the given name, type and nullability.
    pub fn new(name: &str, data_type: ArrowDataType, nullable: bool) -> (f: ArrowField)
        ensures
            f@ == (PhysicalField { name: name@, data_type: data_type@, nullable, metadata: Seq::empty() }),
    {
        ArrowField { name: name.to_owned(), data_type, nullable, metadata: no_metadata() }
    }
}

/// No two fields of the level have the same name.
pub open spec fn physical_names_unique(fields: Seq<PhysicalField>) -> bool {
    forall|i: int, j: int|
        0 <= i < fields.len() && 0 <= j < fields.len() && i != j ==> fields[i].name
            != fields[j].name
}

/// A physical type is well formed when no struct in it, as far as the planner looks, names a
/// field twice.
pub open spec fn physical_type_wf(t: PhysicalType) -> bool
    decreases t,
{
    match t {
        PhysicalType::Struct(fs) => physical_fields_wf(fs),
        PhysicalType::List(f) => physical_type_wf(f.data_type),
        PhysicalType::LargeList(f) => physical_type_wf(f.data_type),
        PhysicalType::ListView(f) => physical_type_wf(f.data_type),
        PhysicalType::MapOf(f, _) => physical_type_wf(f.data_type),
        _ => true,
    }
}

/// A physical level is well formed when its names are unique and each of its types is well
/// formed.
pub open spec fn physical_fields_wf(fs: Seq<PhysicalField>) -> bool
    decreases fs,
{
    &&& physical_names_unique(fs)
    &&& forall|i: int| 0 <= i < fs.len() ==> physical_type_wf((#[trigger] fs[i]).data_type)
}

/// A copy of a time zone.
fn clone_zone(tz: &Option<String>) -> (res: Option<String>)
    ensures
        zone_view(res) == zone_view(*tz),
{
    match tz {
        Some(s) => Some(s.clone()),
        None => None,
    }
}

/// The metadata of a field of which nothing else is said.
pub fn no_metadata() -> (res: Vec<(String, String)>)
    ensures
        metadata_view(res) == Seq::<(Seq<char>, Seq<char>)>::empty(),
{
    let res: Vec<(String, String)> = Vec::new();
    res
}

/// A copy of the metadata of a field.
fn clone_metadata(metadata: &Vec<(String, String)>) -> (res: Vec<(String, String)>)
    ensures
        metadata_view(res) == metadata_view(*metadata),
{
    let mut res: Vec<(String, String)> = Vec::new();
    let mut i: usize = 0;
    while i < metadata.len()
        invariant
            i <= metadata.len(),
            res.len() == i,
            forall|j: int|
                0 <= j < i ==> (#[trigger] res[j]).0@ == metadata[j].0@ && res[j].1@
                    == metadata[j].1@,
        decreases metadata.len() - i,
    {
        res.push((metadata[i].0.clone(), metadata[i].1.clone()));
        i += 1;
    }
    res
}

/// A copy of the type ids of a union.
fn clone_ids(ids: &Vec<i8>) -> (res: Vec<i8>)
    ensures
        res@ == ids@,
{
    let mut res: Vec<i8> = Vec::new();
    let mut i: usize = 0;
    while i < ids.len()
        invariant
            i <= ids.len(),
            res@ == ids@.take(i as int),
        decreases ids.len() - i,
    {
        res.push(ids[i]);
        i += 1;
    }
    res
}

/// A copy of the fields of a level.
pub fn clone_fields(fields: &Vec<ArrowField>) -> (res: Vec<ArrowField>)
    ensures
        physical_fields_view(res) == physical_fields_view(*fields),
    decreases fields, 0nat,
{
    let mut res: Vec<ArrowField> = Vec::new();
    let mut i: usize = 0;
    while i < fields.len()
        invariant
            i <= fields.len(),
            res.len() == i,
            forall|j: int| 0 <= j < i ==> (#[trigger] res[j])@ == fields[j]@,
        decreases fields.len() - i,
    {
        res.push(fields[i].clone());
        i += 1;
    }
    res
}

impl ArrowDataType {
    /// A copy of the type.
    pub fn clone(&self) -> (res: ArrowDataType)
        ensures
            res@ == self@,
        decreases self, 0nat,
    {
        proof {
            reveal_with_fuel(physical_type_view, 2);
        }
        match self {
            ArrowDataType::Null => ArrowDataType::Null,
            ArrowDataType::Boolean => ArrowDataType::Boolean,
            ArrowDataType::Int8 => ArrowDataType::Int8,
            ArrowDataType::Int16 => ArrowDataType::Int16,
            ArrowDataType::Int32 => ArrowDataType::Int32,
            ArrowDataType::Int64 => ArrowDataType::Int64,
            ArrowDataType::UInt8 => ArrowDataType::UInt8,
            ArrowDataType::UInt16 => ArrowDataType::UInt16,
            ArrowDataType::UInt32 => ArrowDataType::UInt32,
            ArrowDataType::UInt64 => ArrowDataType::UInt64,
            ArrowDataType::Float16 => ArrowDataType::Float16,
            ArrowDataType::Float32 => ArrowDataType::Float32,
            ArrowDataType::Float64 => ArrowDataType::Float64,
            ArrowDataType::Timestamp(u, tz) => ArrowDataType::Timestamp(*u, clone_zone(tz)),
            ArrowDataType::Date32 => ArrowDataType::Date32,
            ArrowDataType::Date64 => ArrowDataType::Date64,
            ArrowDataType::Time32(u) => ArrowDataType::Time32(*u),
            ArrowDataType::Time64(u) => ArrowDataType::Time64(*u),
            ArrowDataType::Duration(u) => ArrowDataType::Duration(*u),
            ArrowDataType::Interval(u) => ArrowDataType::Interval(*u),
            ArrowDataType::Binary => ArrowDataType::Binary,
            ArrowDataType::FixedSizeBinary(n) => ArrowDataType::FixedSizeBinary(*n),
            ArrowDataType::LargeBinary => ArrowDataType::LargeBinary,
            ArrowDataType::BinaryView => ArrowDataType::BinaryView,
            ArrowDataType::Utf8 => ArrowDataType::Utf8,
            ArrowDataType::LargeUtf8 => ArrowDataType::LargeUtf8,
            ArrowDataType::Utf8View => ArrowDataType::Utf8View,
            ArrowDataType::List(f) => ArrowDataType::List(Box::new(ArrowField::clone(f))),
            ArrowDataType::ListView(f) => ArrowDataType::ListView(Box::new(ArrowField::clone(f))),
            ArrowDataType::FixedSizeList(f, n) => ArrowDataType::FixedSizeList(
                Box::new(ArrowField::clone(f)),
                *n,
            ),
            ArrowDataType::LargeList(f) => ArrowDataType::LargeList(Box::new(ArrowField::clone(f))),
            ArrowDataType::LargeListView(f) => ArrowDataType::LargeListView(Box::new(ArrowField::clone(f))),
            ArrowDataType::Struct(fs) => ArrowDataType::Struct(clone_fields(fs)),
            ArrowDataType::Union(fs, ids, mode) => ArrowDataType::Union(
                clone_fields(fs),
                clone_ids(ids),
                *mode,
            ),
            ArrowDataType::Dictionary(k, v) => ArrowDataType::Dictionary(
                Box::new(ArrowDataType::clone(k)),
                Box::new(ArrowDataType::clone(v)),
            ),
            ArrowDataType::Decimal128(p, s) => ArrowDataType::Decimal128(*p, *s),
            ArrowDataType::Decimal256(p, s) => ArrowDataType::Decimal256(*p, *s),
            ArrowDataType::MapOf(f, sorted) => ArrowDataType::MapOf(Box::new(ArrowField::clone(f)), *sorted),
            ArrowDataType::RunEndEncoded(r, v) => ArrowDataType::RunEndEncoded(
                Box::new(ArrowField::clone(r)),
                Box::new(ArrowField::clone(v)),
            ),
        }
    }
}

/// The type of a struct with the given fields.
pub fn struct_type_of(fields: &Vec<ArrowField>) -> (t: ArrowDataType)
    ensures
        t@ == PhysicalType::Struct(physical_fields_view(*fields)),
{
    let t = ArrowDataType::Struct(clone_fields(fields));
    assert(t@ == PhysicalType::Struct(physical_fields_view(*fields))) by {
        reveal_with_fuel(physical_type_view, 2);
    }
    t
}

/// The type of a list with the given element field.
pub fn list_type_of(element: &ArrowField, large: bool) -> (t: ArrowDataType)
    ensures
        t@ == if large {
            PhysicalType::LargeList(Box::new(element@))
        } else {
            PhysicalType::List(Box::new(element@))
        },
{
    let t = if large {
        ArrowDataType::LargeList(Box::new(element.clone()))
    } else {
        ArrowDataType::List(Box::new(element.clone()))
    };
    assert(t@ == if large {
        PhysicalType::LargeList(Box::new(element@))
    } else {
        PhysicalType::List(Box::new(element@))
    }) by {
        reveal_with_fuel(physical_type_view, 2);
    }
    t
}

/// The type of a map with the given entries field.
pub fn map_type_of(entries: &ArrowField, ordered: bool) -> (t: ArrowDataType)
    ensures
        t@ == PhysicalType::MapOf(Box::new(entries@), ordered),
{
    let t = ArrowDataType::MapOf(Box::new(entries.clone()), ordered);
    assert(t@ == PhysicalType::MapOf(Box::new(entries@), ordered)) by {
        reveal_with_fuel(physical_type_view, 2);
    }
    t
}

impl ArrowField {
    /// A struct field of the given fields.
    pub fn new_struct(name: &str, fields: Vec<ArrowField>, nullable: bool) -> (f: ArrowField)
        ensures
            f@ == (PhysicalField {
                name: name@,
                data_type: PhysicalType::Struct(physical_fields_view(fields)),
                nullable,
                metadata: Seq::empty(),
            }),
    {
        let f = ArrowField {
            name: name.to_owned(),
            data_type: ArrowDataType::Struct(fields),
            nullable,
            metadata: no_metadata(),
        };
        assert(f@.data_type == PhysicalType::Struct(physical_fields_view(fields))) by {
            reveal_with_fuel(physical_type_view, 2);
        }
        f
    }

    /// A list field of the given element field.
    pub fn new_list(name: &str, element: ArrowField, nullable: bool) -> (f: ArrowField)
        ensures
            f@ == (PhysicalField {
                name: name@,
                data_type: PhysicalType::List(Box::new(element@)),
                nullable,
                metadata: Seq::empty(),
            }),
    {
        let f = ArrowField {
            name: name.to_owned(),
            data_type: ArrowDataType::List(Box::new(element)),
            nullable,
            metadata: no_metadata(),
        };
        assert(f@.data_type == PhysicalType::List(Box::new(element@))) by {
            reveal_with_fuel(physical_type_view, 2);
        }
        f
    }

    /// A map field: its entries are a struct named `entries` that holds the fields `keys`
    /// and `values` and is never NULL.
    pub fn new_map(
        name: &str,
        entries: &str,
        keys: ArrowField,
        values: ArrowField,
        sorted: bool,
        nullable: bool,
    ) -> (f: ArrowField)
        ensures
            f@ == (PhysicalField {
                name: name@,
                data_type: PhysicalType::MapOf(
                    Box::new(
                        PhysicalField {
                            name: entries@,
                            data_type: PhysicalType::Struct(seq![keys@, values@]),
                            nullable: false,
                            metadata: Seq::empty(),
                        },
                    ),
                    sorted,
                ),
                nullable,
                metadata: Seq::empty(),
            }),
    {
        let mut kv: Vec<ArrowField> = Vec::new();
        kv.push(keys);
        kv.push(values);
        assert(physical_fields_view(kv) =~= seq![keys@, values@]);
        let inner = ArrowField::new_struct(entries, kv, false);
        let f = ArrowField {
            name: name.to_owned(),
            data_type: ArrowDataType::MapOf(Box::new(inner), sorted),
            nullable,
            metadata: no_metadata(),
        };
        assert(f@.data_type == PhysicalType::MapOf(Box::new(inner@), sorted)) by {
            reveal_with_fuel(physical_type_view, 2);
        }
        f
    }

    /// The field with other metadata.
    pub fn with_metadata(self, metadata: Vec<(String, String)>) -> (f: ArrowField)
        ensures
            f@ == (PhysicalField {
                name: self@.name,
                data_type: self@.data_type,
                nullable: self@.nullable,
                metadata: metadata_view(metadata),
            }),
    {
        ArrowField { name: self.name, data_type: self.data_type, nullable: self.nullable, metadata }
    }

    /// The field under another name.
    pub fn with_name(self, name: &str) -> (f: ArrowField)
        ensures
            f@ == (PhysicalField {
                name: name@,
                data_type: self@.data_type,
                nullable: self@.nullable,
                metadata: self@.metadata,
            }),
    {
        ArrowField {
            name: name.to_owned(),
            data_type: self.data_type,
            nullable: self.nullable,
            metadata: self.metadata,
        }
    }

    /// A field made of its parts.
    pub fn from_parts(name: String, data_type: ArrowDataType, nullable: bool) -> (f: ArrowField)
        ensures
            f@ == (PhysicalField { name: name@, data_type: data_type@, nullable, metadata: Seq::empty() }),
    {
        ArrowField { name, data_type, nullable, metadata: no_metadata() }
    }

    /// A copy of the field.
    pub fn clone(&self) -> (res: ArrowField)
        ensures
            res@ == self@,
        decreases self, 1nat,
    {
        ArrowField {
            name: self.name.clone(),
            data_type: self.data_type.clone(),
            nullable: self.nullable,
            metadata: clone_metadata(&self.metadata),
        }
    }
}

} // verus!
