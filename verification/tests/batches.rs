use std::sync::Arc;

use arrow::array::{
    make_array, new_null_array, Array, ArrayRef, AsArray, BooleanArray, Float32Array,
    Float64Array, GenericListArray, Int32Array, Int32Builder, Int64Array, MapArray, MapBuilder,
    RecordBatch, StringArray, StructArray, StructBuilder,
};
use arrow::buffer::{NullBuffer, OffsetBuffer, ScalarBuffer};
use arrow::datatypes::{
    DataType as ADataType, Field as AField, Fields, IntervalUnit as AIntervalUnit,
    Schema as ASchema, TimeUnit as ATimeUnit, UnionFields, UnionMode as AUnionMode,
};
use column_reorder::arrow_calls::ArrayValues;
use column_reorder::column::{Column, LeafColumn, ListColumn, MapColumn, StructColumn};
use column_reorder::error::{Error, ErrorKind, Fault};
use column_reorder::null_mask::fix_nested_null_masks;
use column_reorder::physical::{ArrowDataType, ArrowField, IntervalUnit, TimeUnit, UnionMode};
use column_reorder::plan::ReorderIndex;
use column_reorder::planner::get_requested_indices;
use column_reorder::reorder::reorder_struct_array;
use column_reorder::schema::{DataType, StructField, StructType};
use parquet::arrow::arrow_reader::ParquetRecordBatchReaderBuilder;

fn unit_from(unit: &ATimeUnit) -> TimeUnit {
    match unit {
        ATimeUnit::Second => TimeUnit::Second,
        ATimeUnit::Millisecond => TimeUnit::Millisecond,
        ATimeUnit::Microsecond => TimeUnit::Microsecond,
        ATimeUnit::Nanosecond => TimeUnit::Nanosecond,
    }
}

fn unit_to(unit: &TimeUnit) -> ATimeUnit {
    match unit {
        TimeUnit::Second => ATimeUnit::Second,
        TimeUnit::Millisecond => ATimeUnit::Millisecond,
        TimeUnit::Microsecond => ATimeUnit::Microsecond,
        TimeUnit::Nanosecond => ATimeUnit::Nanosecond,
    }
}

fn field_from(field: &AField) -> ArrowField {
    let mut metadata: Vec<(String, String)> = field
        .metadata()
        .iter()
        .map(|(key, value)| (key.clone(), value.clone()))
        .collect();
    metadata.sort();
    ArrowField::new(
        field.name(),
        type_from(field.data_type()),
        field.is_nullable(),
    )
    .with_metadata(metadata)
}

fn fields_from(fields: &Fields) -> Vec<ArrowField> {
    fields.iter().map(|f| field_from(f)).collect()
}

fn type_from(data_type: &ADataType) -> ArrowDataType {
    match data_type {
        ADataType::Null => ArrowDataType::Null,
        ADataType::Boolean => ArrowDataType::Boolean,
        ADataType::Int8 => ArrowDataType::Int8,
        ADataType::Int16 => ArrowDataType::Int16,
        ADataType::Int32 => ArrowDataType::Int32,
        ADataType::Int64 => ArrowDataType::Int64,
        ADataType::UInt8 => ArrowDataType::UInt8,
        ADataType::UInt16 => ArrowDataType::UInt16,
        ADataType::UInt32 => ArrowDataType::UInt32,
        ADataType::UInt64 => ArrowDataType::UInt64,
        ADataType::Float16 => ArrowDataType::Float16,
        ADataType::Float32 => ArrowDataType::Float32,
        ADataType::Float64 => ArrowDataType::Float64,
        ADataType::Timestamp(unit, zone) => {
            ArrowDataType::Timestamp(unit_from(unit), zone.as_ref().map(|z| z.to_string()))
        }
        ADataType::Date32 => ArrowDataType::Date32,
        ADataType::Date64 => ArrowDataType::Date64,
        ADataType::Time32(unit) => ArrowDataType::Time32(unit_from(unit)),
        ADataType::Time64(unit) => ArrowDataType::Time64(unit_from(unit)),
        ADataType::Duration(unit) => ArrowDataType::Duration(unit_from(unit)),
        ADataType::Interval(unit) => ArrowDataType::Interval(match unit {
            AIntervalUnit::YearMonth => IntervalUnit::YearMonth,
            AIntervalUnit::DayTime => IntervalUnit::DayTime,
            AIntervalUnit::MonthDayNano => IntervalUnit::MonthDayNano,
        }),
        ADataType::Binary => ArrowDataType::Binary,
        ADataType::FixedSizeBinary(n) => ArrowDataType::FixedSizeBinary(*n),
        ADataType::LargeBinary => ArrowDataType::LargeBinary,
        ADataType::BinaryView => ArrowDataType::BinaryView,
        ADataType::Utf8 => ArrowDataType::Utf8,
        ADataType::LargeUtf8 => ArrowDataType::LargeUtf8,
        ADataType::Utf8View => ArrowDataType::Utf8View,
        ADataType::List(f) => ArrowDataType::List(Box::new(field_from(f))),
        ADataType::ListView(f) => ArrowDataType::ListView(Box::new(field_from(f))),
        ADataType::FixedSizeList(f, n) => ArrowDataType::FixedSizeList(Box::new(field_from(f)), *n),
        ADataType::LargeList(f) => ArrowDataType::LargeList(Box::new(field_from(f))),
        ADataType::LargeListView(f) => ArrowDataType::LargeListView(Box::new(field_from(f))),
        ADataType::Struct(fields) => ArrowDataType::Struct(fields_from(fields)),
        ADataType::Union(fields, mode) => ArrowDataType::Union(
            fields.iter().map(|(_, f)| field_from(f)).collect(),
            fields.iter().map(|(id, _)| id).collect(),
            match mode {
                AUnionMode::Sparse => UnionMode::Sparse,
                AUnionMode::Dense => UnionMode::Dense,
            },
        ),
        ADataType::Dictionary(k, v) => {
            ArrowDataType::Dictionary(Box::new(type_from(k)), Box::new(type_from(v)))
        }
        ADataType::Decimal128(p, s) => ArrowDataType::Decimal128(*p, *s),
        ADataType::Decimal256(p, s) => ArrowDataType::Decimal256(*p, *s),
        ADataType::Map(f, sorted) => ArrowDataType::MapOf(Box::new(field_from(f)), *sorted),
        ADataType::RunEndEncoded(r, v) => {
            ArrowDataType::RunEndEncoded(Box::new(field_from(r)), Box::new(field_from(v)))
        }
    }
}

fn field_to(field: &ArrowField) -> AField {
    AField::new(&field.name, type_to(&field.data_type), field.nullable)
        .with_metadata(field.metadata.iter().cloned().collect())
}

fn fields_to(fields: &[ArrowField]) -> Fields {
    fields.iter().map(field_to).collect()
}

fn type_to(data_type: &ArrowDataType) -> ADataType {
    match data_type {
        ArrowDataType::Null => ADataType::Null,
        ArrowDataType::Boolean => ADataType::Boolean,
        ArrowDataType::Int8 => ADataType::Int8,
        ArrowDataType::Int16 => ADataType::Int16,
        ArrowDataType::Int32 => ADataType::Int32,
        ArrowDataType::Int64 => ADataType::Int64,
        ArrowDataType::UInt8 => ADataType::UInt8,
        ArrowDataType::UInt16 => ADataType::UInt16,
        ArrowDataType::UInt32 => ADataType::UInt32,
        ArrowDataType::UInt64 => ADataType::UInt64,
        ArrowDataType::Float16 => ADataType::Float16,
        ArrowDataType::Float32 => ADataType::Float32,
        ArrowDataType::Float64 => ADataType::Float64,
        ArrowDataType::Timestamp(unit, zone) => {
            ADataType::Timestamp(unit_to(unit), zone.as_deref().map(Into::into))
        }
        ArrowDataType::Date32 => ADataType::Date32,
        ArrowDataType::Date64 => ADataType::Date64,
        ArrowDataType::Time32(unit) => ADataType::Time32(unit_to(unit)),
        ArrowDataType::Time64(unit) => ADataType::Time64(unit_to(unit)),
        ArrowDataType::Duration(unit) => ADataType::Duration(unit_to(unit)),
        ArrowDataType::Interval(unit) => ADataType::Interval(match unit {
            IntervalUnit::YearMonth => AIntervalUnit::YearMonth,
            IntervalUnit::DayTime => AIntervalUnit::DayTime,
            IntervalUnit::MonthDayNano => AIntervalUnit::MonthDayNano,
        }),
        ArrowDataType::Binary => ADataType::Binary,
        ArrowDataType::FixedSizeBinary(n) => ADataType::FixedSizeBinary(*n),
        ArrowDataType::LargeBinary => ADataType::LargeBinary,
        ArrowDataType::BinaryView => ADataType::BinaryView,
        ArrowDataType::Utf8 => ADataType::Utf8,
        ArrowDataType::LargeUtf8 => ADataType::LargeUtf8,
        ArrowDataType::Utf8View => ADataType::Utf8View,
        ArrowDataType::List(f) => ADataType::List(Arc::new(field_to(f))),
        ArrowDataType::ListView(f) => ADataType::ListView(Arc::new(field_to(f))),
        ArrowDataType::FixedSizeList(f, n) => ADataType::FixedSizeList(Arc::new(field_to(f)), *n),
        ArrowDataType::LargeList(f) => ADataType::LargeList(Arc::new(field_to(f))),
        ArrowDataType::LargeListView(f) => ADataType::LargeListView(Arc::new(field_to(f))),
        ArrowDataType::Struct(fields) => ADataType::Struct(fields_to(fields)),
        ArrowDataType::Union(fields, ids, mode) => ADataType::Union(
            UnionFields::new(ids.iter().copied(), fields.iter().map(field_to)),
            match mode {
                UnionMode::Sparse => AUnionMode::Sparse,
                UnionMode::Dense => AUnionMode::Dense,
            },
        ),
        ArrowDataType::Dictionary(k, v) => {
            ADataType::Dictionary(Box::new(type_to(k)), Box::new(type_to(v)))
        }
        ArrowDataType::Decimal128(p, s) => ADataType::Decimal128(*p, *s),
        ArrowDataType::Decimal256(p, s) => ADataType::Decimal256(*p, *s),
        ArrowDataType::MapOf(f, sorted) => ADataType::Map(Arc::new(field_to(f)), *sorted),
        ArrowDataType::RunEndEncoded(r, v) => {
            ADataType::RunEndEncoded(Arc::new(field_to(r)), Arc::new(field_to(v)))
        }
    }
}

fn mask_from(nulls: Option<&NullBuffer>) -> Option<Vec<bool>> {
    nulls.map(|n| n.iter().collect())
}

fn mask_to(nulls: &Option<Vec<bool>>) -> Option<NullBuffer> {
    nulls.as_ref().map(|bits| NullBuffer::from(bits.as_slice()))
}

fn struct_from(array: &StructArray) -> StructColumn {
    StructColumn {
        fields: fields_from(array.fields()),
        columns: array.columns().iter().map(column_from).collect(),
        nulls: mask_from(array.nulls()),
        len: array.len(),
    }
}

fn column_from(array: &ArrayRef) -> Column {
    match array.data_type() {
        ADataType::Struct(_) => Column::Struct(struct_from(array.as_struct())),
        ADataType::List(field) => {
            let list = array.as_list::<i32>();
            Column::List(ListColumn {
                field: field_from(field),
                large: false,
                offsets: list.offsets().iter().map(|o| *o as i64).collect(),
                values: Box::new(column_from(list.values())),
                nulls: mask_from(list.nulls()),
            })
        }
        ADataType::LargeList(field) => {
            let list = array.as_list::<i64>();
            Column::List(ListColumn {
                field: field_from(field),
                large: true,
                offsets: list.offsets().iter().copied().collect(),
                values: Box::new(column_from(list.values())),
                nulls: mask_from(list.nulls()),
            })
        }
        ADataType::Map(field, ordered) => {
            let map = array.as_map();
            Column::MapOf(MapColumn {
                field: field_from(field),
                offsets: map.offsets().iter().copied().collect(),
                entries: struct_from(map.entries()),
                nulls: mask_from(map.nulls()),
                ordered: *ordered,
            })
        }
        other => Column::Leaf(LeafColumn {
            data_type: type_from(other),
            len: array.len(),
            nulls: mask_from(array.nulls()),
            values: Some(ArrayValues { array: array.clone() }),
        }),
    }
}

fn struct_to(column: &StructColumn) -> StructArray {
    StructArray::try_new_with_length(
        fields_to(&column.fields),
        column.columns.iter().map(column_to).collect(),
        mask_to(&column.nulls),
        column.len,
    )
    .unwrap()
}

fn column_to(column: &Column) -> ArrayRef {
    match column {
        Column::Leaf(leaf) => match &leaf.values {
            None => new_null_array(&type_to(&leaf.data_type), leaf.len),
            Some(values) => make_array(
                values
                    .array
                    .to_data()
                    .into_builder()
                    .nulls(mask_to(&leaf.nulls))
                    .build()
                    .unwrap(),
            ),
        },
        Column::Struct(s) => Arc::new(struct_to(s)),
        Column::List(list) => {
            let field = Arc::new(field_to(&list.field));
            let values = column_to(&list.values);
            let nulls = mask_to(&list.nulls);
            if list.large {
                let offsets = OffsetBuffer::new(ScalarBuffer::from(list.offsets.clone()));
                Arc::new(GenericListArray::<i64>::try_new(field, offsets, values, nulls).unwrap())
            } else {
                let narrow: Vec<i32> = list.offsets.iter().map(|o| *o as i32).collect();
                let offsets = OffsetBuffer::new(ScalarBuffer::from(narrow));
                Arc::new(GenericListArray::<i32>::try_new(field, offsets, values, nulls).unwrap())
            }
        }
        Column::MapOf(map) => Arc::new(
            MapArray::try_new(
                Arc::new(field_to(&map.field)),
                OffsetBuffer::new(ScalarBuffer::from(map.offsets.clone())),
                struct_to(&map.entries),
                mask_to(&map.nulls),
                map.ordered,
            )
            .unwrap(),
        ),
    }
}

fn same_mask(a: &Option<Vec<bool>>, b: &Option<Vec<bool>>) -> bool {
    a == b
}

fn same_struct(a: &StructColumn, b: &StructColumn) -> bool {
    a.fields == b.fields
        && a.len == b.len
        && same_mask(&a.nulls, &b.nulls)
        && a.columns.len() == b.columns.len()
        && a.columns.iter().zip(&b.columns).all(|(x, y)| same_column(x, y))
}

fn same_column(a: &Column, b: &Column) -> bool {
    match (a, b) {
        (Column::Leaf(x), Column::Leaf(y)) => {
            x.data_type == y.data_type
                && x.len == y.len
                && same_mask(&x.nulls, &y.nulls)
                && match (&x.values, &y.values) {
                    (Some(v), Some(w)) => v.array.as_ref() == w.array.as_ref(),
                    (None, None) => true,
                    _ => false,
                }
        }
        (Column::Struct(x), Column::Struct(y)) => same_struct(x, y),
        (Column::List(x), Column::List(y)) => {
            x.field == y.field
                && x.large == y.large
                && x.offsets == y.offsets
                && same_mask(&x.nulls, &y.nulls)
                && same_column(&x.values, &y.values)
        }
        (Column::MapOf(x), Column::MapOf(y)) => {
            x.field == y.field
                && x.offsets == y.offsets
                && x.ordered == y.ordered
                && same_mask(&x.nulls, &y.nulls)
                && same_struct(&x.entries, &y.entries)
        }
        _ => false,
    }
}

fn column_names(column: &StructColumn) -> Vec<&str> {
    column.fields.iter().map(|f| f.name.as_str()).collect()
}

fn as_struct(column: &Column) -> &StructColumn {
    match column {
        Column::Struct(s) => s,
        _ => panic!("Expected a struct column"),
    }
}

fn make_struct_array() -> StructArray {
    let boolean = Arc::new(BooleanArray::from(vec![false, false, true, true]));
    let int = Arc::new(Int32Array::from(vec![42, 28, 19, 31]));
    StructArray::from(vec![
        (
            Arc::new(AField::new("b", ADataType::Boolean, false)),
            boolean.clone() as ArrayRef,
        ),
        (
            Arc::new(AField::new("c", ADataType::Int32, false)),
            int.clone() as ArrayRef,
        ),
    ])
}

#[test]
fn simple_reorder_struct() {
    let arry = struct_from(&make_struct_array());
    let reorder = vec![ReorderIndex::identity(1), ReorderIndex::identity(0)];
    let ordered = reorder_struct_array(arry, &reorder).unwrap();
    assert_eq!(column_names(&ordered), vec!["c", "b"]);
    // the columns went with their names
    let back = struct_to(&ordered);
    assert_eq!(back.column_names(), vec!["c", "b"]);
    assert_eq!(
        back.column(0).as_primitive::<arrow::datatypes::Int32Type>(),
        &Int32Array::from(vec![42, 28, 19, 31])
    );
    assert_eq!(
        back.column(1).as_boolean(),
        &BooleanArray::from(vec![false, false, true, true])
    );
}

#[test]
fn nested_reorder_struct() {
    let arry1 = Arc::new(make_struct_array());
    let arry2 = Arc::new(make_struct_array());
    let fields: Fields = vec![
        Arc::new(AField::new("b", ADataType::Boolean, false)),
        Arc::new(AField::new("c", ADataType::Int32, false)),
    ]
    .into();
    let nested = StructArray::from(vec![
        (
            Arc::new(AField::new(
                "struct1",
                ADataType::Struct(fields.clone()),
                false,
            )),
            arry1 as ArrayRef,
        ),
        (
            Arc::new(AField::new("struct2", ADataType::Struct(fields), false)),
            arry2 as ArrayRef,
        ),
    ]);
    let reorder = vec![
        ReorderIndex::nested(
            1,
            vec![ReorderIndex::identity(1), ReorderIndex::identity(0)],
        ),
        ReorderIndex::nested(
            0,
            vec![
                ReorderIndex::identity(0),
                ReorderIndex::identity(1),
                ReorderIndex::missing(2, ArrowField::new("s", ArrowDataType::Utf8, true)),
            ],
        ),
    ];
    let ordered = reorder_struct_array(struct_from(&nested), &reorder).unwrap();
    assert_eq!(column_names(&ordered), vec!["struct2", "struct1"]);
    let ordered_s2 = as_struct(&ordered.columns[0]);
    assert_eq!(column_names(ordered_s2), vec!["b", "c", "s"]);
    let ordered_s1 = as_struct(&ordered.columns[1]);
    assert_eq!(column_names(ordered_s1), vec!["c", "b"]);
    // the result is a batch that the columnar crate accepts
    let back = struct_to(&ordered);
    assert_eq!(back.column_names(), vec!["struct2", "struct1"]);
    let s = back.column(0).as_struct().column(2);
    assert_eq!(s.data_type(), &ADataType::Utf8);
    assert_eq!(s.len(), 4);
    assert_eq!(s.null_count(), 4);
}

#[test]
fn reorder_list_of_struct() {
    let boolean = Arc::new(BooleanArray::from(vec![
        false, false, true, true, false, true,
    ]));
    let int = Arc::new(Int32Array::from(vec![42, 28, 19, 31, 0, 3]));
    let list_sa = StructArray::from(vec![
        (
            Arc::new(AField::new("b", ADataType::Boolean, false)),
            boolean.clone() as ArrayRef,
        ),
        (
            Arc::new(AField::new("c", ADataType::Int32, false)),
            int.clone() as ArrayRef,
        ),
    ]);
    let offsets = OffsetBuffer::new(ScalarBuffer::from(vec![0, 3, 6]));
    let list_field = AField::new("item", list_sa.data_type().clone(), false);
    let list = Arc::new(GenericListArray::new(
        Arc::new(list_field),
        offsets,
        Arc::new(list_sa),
        None,
    ));
    let fields: Fields = vec![
        Arc::new(AField::new("b", ADataType::Boolean, false)),
        Arc::new(AField::new("c", ADataType::Int32, false)),
    ]
    .into();
    let list_dt = Arc::new(AField::new(
        "list",
        ADataType::List(Arc::new(AField::new("item", ADataType::Struct(fields), false))),
        false,
    ));
    let struct_array = StructArray::from(vec![(list_dt, list as ArrayRef)]);
    let reorder = vec![ReorderIndex::nested(
        0,
        vec![ReorderIndex::identity(1), ReorderIndex::identity(0)],
    )];
    let ordered = reorder_struct_array(struct_from(&struct_array), &reorder).unwrap();
    let ordered = struct_to(&ordered);
    let ordered_list_col = ordered.column(0).as_list::<i32>();
    for i in 0..ordered_list_col.len() {
        let array_item = ordered_list_col.value(i);
        let struct_item = array_item.as_struct();
        assert_eq!(struct_item.column_names(), vec!["c", "b"]);
    }
    assert_eq!(ordered_list_col.len(), 2);
    assert_eq!(ordered_list_col.offsets().as_ref(), &[0, 3, 6]);
}

// boy howdy this is more complicated than expected
fn build_arrow_map() -> MapArray {
    let key_struct_builder = StructBuilder::from_fields(
        Fields::from(vec![
            AField::new("k1", ADataType::Int32, false),
            AField::new("k2", ADataType::Int32, false),
        ]),
        1,
    );
    let value_struct_builder = StructBuilder::from_fields(
        Fields::from(vec![
            AField::new("v1", ADataType::Int32, false),
            AField::new("v2", ADataType::Int32, false),
        ]),
        1,
    );
    let mut map_builder = MapBuilder::new(None, key_struct_builder, value_struct_builder);

    let (key_builder, value_builder) = map_builder.entries();
    let key_k1_builder = key_builder.field_builder::<Int32Builder>(0).unwrap();
    key_k1_builder.append_value(1);
    let key_k2_builder = key_builder.field_builder::<Int32Builder>(1).unwrap();
    key_k2_builder.append_value(2);
    key_builder.append(true);

    let value_v1_builder = value_builder.field_builder::<Int32Builder>(0).unwrap();
    value_v1_builder.append_value(1);
    let value_v2_builder = value_builder.field_builder::<Int32Builder>(1).unwrap();
    value_v2_builder.append_value(2);
    value_builder.append(true);
    map_builder.append(true).unwrap();
    map_builder.finish()
}

#[test]
fn reorder_map_of_struct() {
    let int_array = Arc::new(Int32Array::from(vec![42]));
    let int_dt = Arc::new(AField::new("i", int_array.data_type().clone(), false));
    let map_array = Arc::new(build_arrow_map());
    let map_dt = Arc::new(AField::new("map", map_array.data_type().clone(), false));
    let struct_array = StructArray::from(vec![
        (int_dt, int_array as ArrayRef),
        (map_dt, map_array as ArrayRef),
    ]);
    let reorder = vec![
        ReorderIndex::identity(1),
        ReorderIndex::nested(
            0,
            vec![
                ReorderIndex::identity(0),
                ReorderIndex::nested(
                    1,
                    vec![ReorderIndex::identity(1), ReorderIndex::identity(0)],
                ),
            ],
        ),
    ];
    let ordered = reorder_struct_array(struct_from(&struct_array), &reorder).unwrap();
    assert_eq!(column_names(&ordered), vec!["map", "i"]);
    let ordered = struct_to(&ordered);
    assert_eq!(ordered.column_names(), vec!["map", "i"]);
    if let ADataType::Map(field, _) = ordered.column(0).data_type() {
        if let ADataType::Struct(fields) = field.data_type() {
            fn assert_col_order(field: &AField, expected: Vec<&str>) {
                if let ADataType::Struct(fields) = field.data_type() {
                    let names: Vec<&str> =
                        fields.iter().map(|field| field.name().as_str()).collect();
                    assert_eq!(names, expected);
                } else {
                    panic!("Expected struct field");
                }
            }
            assert_col_order(&fields[0], vec!["k1", "k2"]);
            assert_col_order(&fields[1], vec!["v2", "v1"]);
        } else {
            panic!("Inner field should have been a struct");
        }
    } else {
        panic!("Column 0 should have been a map");
    }
}

fn assert_nulls(column: &dyn Array, nulls: &[bool]) {
    assert_eq!(column.nulls().unwrap(), &NullBuffer::from(nulls));
}

#[test]
fn test_arrow_broken_nested_null_masks() {
    // Parse some JSON into a nested schema
    let schema = Arc::new(ASchema::new(vec![AField::new(
        "outer",
        ADataType::Struct(Fields::from(vec![
            AField::new(
                "inner_nullable",
                ADataType::Struct(Fields::from(vec![
                    AField::new("leaf_non_null", ADataType::Int32, false),
                    AField::new("leaf_nullable", ADataType::Int32, true),
                ])),
                true,
            ),
            AField::new(
                "inner_non_null",
                ADataType::Struct(Fields::from(vec![
                    AField::new("leaf_non_null", ADataType::Int32, false),
                    AField::new("leaf_nullable", ADataType::Int32, true),
                ])),
                false,
            ),
        ])),
        true,
    )]));
    let json_string = r#"
{ }
{ "outer" : { "inner_non_null" : { "leaf_non_null" : 1 } } }
{ "outer" : { "inner_non_null" : { "leaf_non_null" : 2, "leaf_nullable" : 3 } } }
{ "outer" : { "inner_non_null" : { "leaf_non_null" : 4 }, "inner_nullable" : { "leaf_non_null" : 5 } } }
{ "outer" : { "inner_non_null" : { "leaf_non_null" : 6 }, "inner_nullable" : { "leaf_non_null" : 7, "leaf_nullable": 8 } } }
"#;
    let batch1 = arrow::json::ReaderBuilder::new(schema.clone())
        .build(json_string.as_bytes())
        .unwrap()
        .next()
        .unwrap()
        .unwrap();

    // If any of these tests ever fail, it means the arrow JSON reader started producing
    // incomplete nested NULL masks.
    let outer_1 = batch1.column(0).as_struct();
    assert_nulls(outer_1, &[false, true, true, true, true]);
    let inner_nullable_1 = outer_1.column(0).as_struct();
    assert_nulls(inner_nullable_1, &[false, false, false, true, true]);
    let nullable_leaf_non_null_1 = inner_nullable_1.column(0);
    assert_nulls(nullable_leaf_non_null_1, &[false, false, false, true, true]);
    let nullable_leaf_nullable_1 = inner_nullable_1.column(1);
    assert_nulls(nullable_leaf_nullable_1, &[false, false, false, false, true]);
    let inner_non_null_1 = outer_1.column(1).as_struct();
    assert_nulls(inner_non_null_1, &[false, true, true, true, true]);
    let non_null_leaf_non_null_1 = inner_non_null_1.column(0);
    assert_nulls(non_null_leaf_non_null_1, &[false, true, true, true, true]);
    let non_null_leaf_nullable_1 = inner_non_null_1.column(1);
    assert_nulls(non_null_leaf_nullable_1, &[false, false, true, false, false]);

    // Write the batch to a parquet file and read it back
    let mut buffer = vec![];
    let mut writer =
        parquet::arrow::ArrowWriter::try_new(&mut buffer, schema.clone(), None).unwrap();
    writer.write(&batch1).unwrap();
    writer.close().unwrap(); // writer must be closed to write footer
    let batch2 = ParquetRecordBatchReaderBuilder::try_new(bytes::Bytes::from(buffer))
        .unwrap()
        .build()
        .unwrap()
        .next()
        .unwrap()
        .unwrap();

    // The parquet reader returns broken nested NULL masks.
    let broken: StructArray = batch2.into();
    let fixed = fix_nested_null_masks(struct_from(&broken));
    let batch2 = RecordBatch::from(struct_to(&fixed));

    // Verify the data survived the round trip
    let outer_2 = batch2.column(0).as_struct();
    assert_eq!(outer_2, outer_1);
    let inner_nullable_2 = outer_2.column(0).as_struct();
    assert_eq!(inner_nullable_2, inner_nullable_1);
    let nullable_leaf_non_null_2 = inner_nullable_2.column(0);
    assert_eq!(nullable_leaf_non_null_2, nullable_leaf_non_null_1);
    let nullable_leaf_nullable_2 = inner_nullable_2.column(1);
    assert_eq!(nullable_leaf_nullable_2, nullable_leaf_nullable_1);
    let inner_non_null_2 = outer_2.column(1).as_struct();
    assert_eq!(inner_non_null_2, inner_non_null_1);
    let non_null_leaf_non_null_2 = inner_non_null_2.column(0);
    assert_eq!(non_null_leaf_non_null_2, non_null_leaf_non_null_1);
    let non_null_leaf_nullable_2 = inner_non_null_2.column(1);
    assert_eq!(non_null_leaf_nullable_2, non_null_leaf_nullable_1);
}

// A validity mask written as flags that say where a row is NULL.
fn validity(is_null: &[bool]) -> Option<Vec<bool>> {
    Some(is_null.iter().map(|n| !n).collect())
}

fn int_leaf(values: Vec<i32>, is_null: Option<&[bool]>) -> Column {
    let len = values.len();
    Column::Leaf(LeafColumn {
        data_type: ArrowDataType::Int32,
        len,
        nulls: is_null.and_then(validity),
        values: Some(ArrayValues { array: Arc::new(Int32Array::from(values)) }),
    })
}

fn leaf_nulls(column: &Column) -> &Option<Vec<bool>> {
    match column {
        Column::Leaf(leaf) => &leaf.nulls,
        _ => panic!("Expected a column without children"),
    }
}

const F: bool = false;
const T: bool = true;

// Parent NULL at rows 1 to 4, child NULL at rows 3 and 4: after repair the child is NULL at
// rows 1 to 4, and to repair again changes nothing.
#[test]
fn null_mask_reconciliation_example() {
    let child = int_leaf(vec![1, 2, 3, 4, 5], Some(&[F, F, F, T, T]));
    let parent = StructColumn {
        fields: vec![ArrowField::new("leaf", ArrowDataType::Int32, true)],
        columns: vec![child],
        nulls: validity(&[F, T, T, T, T]),
        len: 5,
    };
    let outer = StructColumn {
        fields: vec![ArrowField::new(
            "parent",
            ArrowDataType::Struct(vec![ArrowField::new("leaf", ArrowDataType::Int32, true)]),
            true,
        )],
        columns: vec![Column::Struct(parent)],
        nulls: None,
        len: 5,
    };
    let fixed = fix_nested_null_masks(outer);
    let parent = as_struct(&fixed.columns[0]);
    assert_eq!(parent.nulls, validity(&[F, T, T, T, T]));
    assert_eq!(leaf_nulls(&parent.columns[0]), &validity(&[F, T, T, T, T]));
    assert_eq!(fixed.nulls, None);

    let again = fix_nested_null_masks(struct_from(&struct_to(&fixed)));
    assert_eq!(struct_to(&again), struct_to(&fixed));
    let parent = as_struct(&again.columns[0]);
    assert_eq!(leaf_nulls(&parent.columns[0]), &validity(&[F, T, T, T, T]));
}

// The NULLs of every ancestor reach a leaf, and a list takes them in its own mask only.
#[test]
fn null_masks_reach_every_level() {
    let leaf = int_leaf(vec![1, 2, 3], None);
    let list_values = int_leaf(vec![7, 8], Some(&[F, T]));
    let list = Column::List(ListColumn {
        field: ArrowField::new("element", ArrowDataType::Int32, true),
        large: false,
        offsets: vec![0, 1, 2, 2],
        values: Box::new(list_values),
        nulls: validity(&[F, F, T]),
    });
    let inner = StructColumn {
        fields: vec![
            ArrowField::new("leaf", ArrowDataType::Int32, true),
            ArrowField::new(
                "list",
                ArrowDataType::List(Box::new(ArrowField::new(
                    "element",
                    ArrowDataType::Int32,
                    true,
                ))),
                true,
            ),
        ],
        columns: vec![leaf, list],
        nulls: validity(&[F, T, F]),
        len: 3,
    };
    let top = StructColumn {
        fields: vec![ArrowField::new(
            "inner",
            ArrowDataType::Struct(vec![
                ArrowField::new("leaf", ArrowDataType::Int32, true),
                ArrowField::new(
                    "list",
                    ArrowDataType::List(Box::new(ArrowField::new(
                        "element",
                        ArrowDataType::Int32,
                        true,
                    ))),
                    true,
                ),
            ]),
            true,
        )],
        columns: vec![Column::Struct(inner)],
        nulls: validity(&[T, F, F]),
        len: 3,
    };
    let fixed = fix_nested_null_masks(top);
    assert_eq!(fixed.nulls, validity(&[T, F, F]));
    let inner = as_struct(&fixed.columns[0]);
    assert_eq!(inner.nulls, validity(&[T, T, F]));
    assert_eq!(leaf_nulls(&inner.columns[0]), &validity(&[T, T, F]));
    match &inner.columns[1] {
        Column::List(list) => {
            assert_eq!(list.nulls, validity(&[T, T, T]));
            assert_eq!(leaf_nulls(&list.values), &validity(&[F, T]));
            assert_eq!(list.offsets, vec![0, 1, 2, 2]);
        }
        _ => panic!("Expected a list column"),
    }
}

#[test]
fn null_masks_of_empty_batches() {
    let no_columns = StructColumn { fields: vec![], columns: vec![], nulls: None, len: 0 };
    let fixed = fix_nested_null_masks(no_columns);
    assert!(same_struct(
        &fixed,
        &StructColumn { fields: vec![], columns: vec![], nulls: None, len: 0 }
    ));

    let no_rows = StructColumn {
        fields: vec![ArrowField::new("leaf", ArrowDataType::Int32, true)],
        columns: vec![int_leaf(vec![], Some(&[]))],
        nulls: Some(vec![]),
        len: 0,
    };
    let fixed = fix_nested_null_masks(no_rows);
    assert_eq!(fixed.nulls, Some(vec![]));
    assert_eq!(leaf_nulls(&fixed.columns[0]), &Some(vec![]));
    assert_eq!(fixed.len, 0);
}

fn reorder_example_batch() -> StructColumn {
    let i2 = Arc::new(Int32Array::from(vec![Some(1), None, Some(3)])) as ArrayRef;
    let i = Arc::new(Int32Array::from(vec![10, 20, 30])) as ArrayRef;
    let s = Arc::new(StringArray::from(vec![Some("a"), Some("b"), None])) as ArrayRef;
    struct_from(&StructArray::from(vec![
        (Arc::new(AField::new("i2", ADataType::Int32, true)), i2),
        (Arc::new(AField::new("i", ADataType::Int32, false)), i),
        (Arc::new(AField::new("s", ADataType::Utf8, true)), s),
    ]))
}

// Physical columns [i2, i, s] asked for as [i, s, i2]: every leaf is decoded, and the output
// is [i, s, i2] with the values that were read.
#[test]
fn reorder_example() {
    let requested_schema = StructType::new(vec![
        StructField::not_null("i", DataType::integer()),
        StructField::nullable("s", DataType::string()),
        StructField::nullable("i2", DataType::integer()),
    ]);
    let batch = reorder_example_batch();
    let (mask_indices, reorder_indices) =
        get_requested_indices(&requested_schema, &batch.fields).unwrap();
    assert_eq!(mask_indices, vec![0, 1, 2]);
    let ordered = struct_to(&reorder_struct_array(batch, &reorder_indices).unwrap());
    assert_eq!(ordered.column_names(), vec!["i", "s", "i2"]);
    assert_eq!(
        ordered.column(0).as_primitive::<arrow::datatypes::Int32Type>(),
        &Int32Array::from(vec![10, 20, 30])
    );
    assert_eq!(
        ordered.column(1).as_string::<i32>(),
        &StringArray::from(vec![Some("a"), Some("b"), None])
    );
    assert_eq!(
        ordered.column(2).as_primitive::<arrow::datatypes::Int32Type>(),
        &Int32Array::from(vec![Some(1), None, Some(3)])
    );
    assert_eq!(ordered.len(), 3);
}

// A plan that asks for no work gives the batch back as it is.
#[test]
fn plan_without_work_returns_the_batch() {
    let plan = vec![
        ReorderIndex::identity(0),
        ReorderIndex::identity(1),
        ReorderIndex::identity(2),
    ];
    let ordered = reorder_struct_array(reorder_example_batch(), &plan).unwrap();
    assert!(same_struct(&ordered, &reorder_example_batch()));
    // no work is asked for even where plan and batch differ in length
    let ordered = reorder_struct_array(reorder_example_batch(), &vec![]).unwrap();
    assert!(same_struct(&ordered, &reorder_example_batch()));
}

fn single(field: AField, array: ArrayRef) -> StructColumn {
    struct_from(&StructArray::from(vec![(Arc::new(field), array)]))
}

// A cast keeps the numbers: 32-bit integers read as 64-bit, floats read as doubles.
#[test]
fn cast_preserves_values() {
    let batch = single(
        AField::new("n", ADataType::Int32, true),
        Arc::new(Int32Array::from(vec![Some(1), None, Some(-3), Some(i32::MAX)])),
    );
    let plan = vec![ReorderIndex::cast(0, ArrowDataType::Int64)];
    let ordered = reorder_struct_array(batch, &plan).unwrap();
    assert_eq!(
        ordered.fields,
        vec![ArrowField::new("n", ArrowDataType::Int64, true)]
    );
    let back = struct_to(&ordered);
    assert_eq!(back.column(0).data_type(), &ADataType::Int64);
    assert_eq!(
        back.column(0).as_primitive::<arrow::datatypes::Int64Type>(),
        &Int64Array::from(vec![Some(1), None, Some(-3), Some(i32::MAX as i64)])
    );

    let batch = single(
        AField::new("x", ADataType::Float32, false),
        Arc::new(Float32Array::from(vec![1.5f32, -0.25, 3.0e10])),
    );
    let plan = vec![ReorderIndex::cast(0, ArrowDataType::Float64)];
    let back = struct_to(&reorder_struct_array(batch, &plan).unwrap());
    assert_eq!(back.column(0).data_type(), &ADataType::Float64);
    assert_eq!(
        back.column(0).as_primitive::<arrow::datatypes::Float64Type>(),
        &Float64Array::from(vec![1.5f32 as f64, -0.25f32 as f64, 3.0e10f32 as f64])
    );
}

// Planned and applied: a stored 32-bit integer asked for as a long is cast, and a nullable
// field that the file lacks becomes a column of NULLs of its type.
#[test]
fn planned_cast_and_missing_column() {
    let requested_schema = StructType::new(vec![
        StructField::nullable("absent", DataType::string()),
        StructField::not_null("n", DataType::long()),
    ]);
    let batch = single(
        AField::new("n", ADataType::Int32, false),
        Arc::new(Int32Array::from(vec![7, 8, 9])),
    );
    let (mask_indices, plan) = get_requested_indices(&requested_schema, &batch.fields).unwrap();
    assert_eq!(mask_indices, vec![0]);
    assert_eq!(
        plan,
        vec![
            ReorderIndex::cast(1, ArrowDataType::Int64),
            ReorderIndex::missing(0, ArrowField::new("absent", ArrowDataType::Utf8, true)),
        ]
    );
    let ordered = reorder_struct_array(batch, &plan).unwrap();
    assert!(same_column(
        &ordered.columns[0],
        &Column::Leaf(LeafColumn {
            data_type: ArrowDataType::Utf8,
            len: 3,
            nulls: Some(vec![false, false, false]),
            values: None,
        })
    ));
    let back = struct_to(&ordered);
    assert_eq!(back.column_names(), vec!["absent", "n"]);
    assert_eq!(back.column(0).data_type(), &ADataType::Utf8);
    assert_eq!(back.column(0).len(), 3);
    assert_eq!(back.column(0).null_count(), 3);
    assert_eq!(
        back.column(1).as_primitive::<arrow::datatypes::Int64Type>(),
        &Int64Array::from(vec![7i64, 8, 9])
    );
}

fn fault_of(result: Result<StructColumn, Error>) -> Fault {
    match result {
        Err(err) => {
            assert_eq!(err.kind(), ErrorKind::InternalInvariantViolation);
            match err {
                Error::InternalError(fault) => fault,
                other => panic!("Expected an internal error, found {other:?}"),
            }
        }
        Ok(_) => panic!("Expected a failure"),
    }
}

// A plan and a batch that do not fit each other.
#[test]
fn misfit_plan_is_an_internal_error() {
    // an output position that nothing was placed at
    let plan = vec![ReorderIndex::identity(1), ReorderIndex::identity(1)];
    assert_eq!(
        fault_of(reorder_struct_array(struct_from(&make_struct_array()), &plan)),
        Fault::UnfilledSlot
    );
    // a target beyond the plan
    let plan = vec![ReorderIndex::identity(2), ReorderIndex::identity(0)];
    assert_eq!(
        fault_of(reorder_struct_array(struct_from(&make_struct_array()), &plan)),
        Fault::TargetOutOfRange
    );
    // a node without a column
    let plan = vec![
        ReorderIndex::identity(1),
        ReorderIndex::identity(0),
        ReorderIndex::identity(2),
    ];
    assert_eq!(
        fault_of(reorder_struct_array(struct_from(&make_struct_array()), &plan)),
        Fault::ColumnCountMismatch
    );
    // a nested plan for a column without children
    let plan = vec![
        ReorderIndex::nested(
            0,
            vec![ReorderIndex::identity(1), ReorderIndex::identity(0)],
        ),
        ReorderIndex::identity(1),
    ];
    assert_eq!(
        fault_of(reorder_struct_array(struct_from(&make_struct_array()), &plan)),
        Fault::NotNested
    );
    // a cast to a type that no widening leads to
    let plan = vec![
        ReorderIndex::identity(0),
        ReorderIndex::cast(1, ArrowDataType::Utf8),
    ];
    assert_eq!(
        fault_of(reorder_struct_array(struct_from(&make_struct_array()), &plan)),
        Fault::CastTarget
    );
    // a cast of a struct
    let nested = single(
        AField::new("s", make_struct_array().data_type().clone(), false),
        Arc::new(make_struct_array()),
    );
    let plan = vec![ReorderIndex::cast(0, ArrowDataType::Int64)];
    assert_eq!(fault_of(reorder_struct_array(nested, &plan)), Fault::CastOfNested);
    // a nested plan for a list of integers
    let list = GenericListArray::<i32>::new(
        Arc::new(AField::new("item", ADataType::Int32, false)),
        OffsetBuffer::new(ScalarBuffer::from(vec![0, 2])),
        Arc::new(Int32Array::from(vec![1, 2])),
        None,
    );
    let batch = single(
        AField::new("l", list.data_type().clone(), false),
        Arc::new(list),
    );
    let plan = vec![ReorderIndex::nested(
        0,
        vec![ReorderIndex::identity(1), ReorderIndex::identity(0)],
    )];
    assert_eq!(fault_of(reorder_struct_array(batch, &plan)), Fault::ListWithoutStruct);
    // the entries of a map reshaped into three columns
    let map_array = build_arrow_map();
    let batch = single(
        AField::new("m", map_array.data_type().clone(), false),
        Arc::new(map_array),
    );
    let plan = vec![ReorderIndex::nested(
        0,
        vec![
            ReorderIndex::identity(1),
            ReorderIndex::identity(0),
            ReorderIndex::missing(2, ArrowField::new("x", ArrowDataType::Int32, true)),
        ],
    )];
    assert_eq!(fault_of(reorder_struct_array(batch, &plan)), Fault::MapEntries);
}

// A cast is asked of arrow only where the values widen to the target: a cast from any
// other values is refused by the library itself.
#[test]
fn cast_of_other_values_is_refused() {
    let batch = single(
        AField::new("b", ADataType::Binary, false),
        Arc::new(arrow::array::BinaryArray::from(vec![b"x".as_ref()])),
    );
    let plan = vec![ReorderIndex::cast(0, ArrowDataType::Decimal128(10, 2))];
    assert_eq!(fault_of(reorder_struct_array(batch, &plan)), Fault::CastSource);
    // a narrowing
    let batch = single(
        AField::new("n", ADataType::Int64, false),
        Arc::new(Int64Array::from(vec![1i64])),
    );
    let plan = vec![ReorderIndex::cast(0, ArrowDataType::Int32)];
    assert_eq!(fault_of(reorder_struct_array(batch, &plan)), Fault::CastSource);
    // a decimal whose scales lie far apart
    let far = arrow::array::Decimal128Array::from(vec![1i128])
        .with_precision_and_scale(38, 38)
        .unwrap();
    let batch = single(AField::new("d", far.data_type().clone(), false), Arc::new(far));
    let plan = vec![ReorderIndex::cast(0, ArrowDataType::Decimal128(38, -128))];
    assert_eq!(fault_of(reorder_struct_array(batch, &plan)), Fault::CastSource);
    // a decimal that arrow does not accept is no target
    let batch = single(
        AField::new("n", ADataType::Int32, false),
        Arc::new(Int32Array::from(vec![1])),
    );
    let plan = vec![ReorderIndex::cast(0, ArrowDataType::Decimal128(39, 0))];
    assert_eq!(fault_of(reorder_struct_array(batch, &plan)), Fault::CastTarget);
    let batch = single(
        AField::new("n", ADataType::Int32, false),
        Arc::new(Int32Array::from(vec![1])),
    );
    let plan = vec![ReorderIndex::cast(0, ArrowDataType::Decimal128(12, 13))];
    assert_eq!(fault_of(reorder_struct_array(batch, &plan)), Fault::CastTarget);
}

// A decimal that holds every value of the column is cast to.
#[test]
fn decimal_widening_cast() {
    let narrow = arrow::array::Decimal128Array::from(vec![Some(12345i128), None])
        .with_precision_and_scale(10, 2)
        .unwrap();
    let batch = single(AField::new("d", narrow.data_type().clone(), true), Arc::new(narrow));
    let plan = vec![ReorderIndex::cast(0, ArrowDataType::Decimal128(12, 4))];
    let back = struct_to(&reorder_struct_array(batch, &plan).unwrap());
    assert_eq!(
        back.column(0).as_primitive::<arrow::datatypes::Decimal128Type>(),
        &arrow::array::Decimal128Array::from(vec![Some(1234500i128), None])
            .with_precision_and_scale(12, 4)
            .unwrap()
    );
    let batch = single(
        AField::new("n", ADataType::Int32, false),
        Arc::new(Int32Array::from(vec![7, -8])),
    );
    let plan = vec![ReorderIndex::cast(0, ArrowDataType::Decimal128(12, 2))];
    let back = struct_to(&reorder_struct_array(batch, &plan).unwrap());
    assert_eq!(
        back.column(0).as_primitive::<arrow::datatypes::Decimal128Type>(),
        &arrow::array::Decimal128Array::from(vec![700i128, -800])
            .with_precision_and_scale(12, 2)
            .unwrap()
    );
}

// A date is cast to a timestamp without a zone by way of seconds, so that a date too far
// out for microseconds is NULL.
#[test]
fn date_is_cast_to_a_timestamp() {
    let dates = arrow::array::Date32Array::from(vec![Some(1), Some(i32::MAX), None, Some(-2)]);
    let batch = single(AField::new("d", ADataType::Date32, true), Arc::new(dates));
    let target = ArrowDataType::Timestamp(TimeUnit::Microsecond, None);
    let plan = vec![ReorderIndex::cast(0, target)];
    let ordered = reorder_struct_array(batch, &plan).unwrap();
    assert_eq!(
        leaf_nulls(&ordered.columns[0]),
        &Some(vec![true, false, false, true])
    );
    let back = struct_to(&ordered);
    assert_eq!(
        back.column(0)
            .as_primitive::<arrow::datatypes::TimestampMicrosecondType>(),
        &arrow::array::TimestampMicrosecondArray::from(vec![
            Some(86_400_000_000),
            None,
            None,
            Some(-172_800_000_000)
        ])
    );
    // a date has no zone, so it is not cast to a timestamp in a zone
    let dates = arrow::array::Date32Array::from(vec![1]);
    let batch = single(AField::new("d", ADataType::Date32, false), Arc::new(dates));
    let plan = vec![ReorderIndex::cast(
        0,
        ArrowDataType::Timestamp(TimeUnit::Microsecond, Some("UTC".to_string())),
    )];
    assert_eq!(fault_of(reorder_struct_array(batch, &plan)), Fault::CastSource);
}

// A column that is cast keeps the NULLs that its own mask holds, besides those of the cast
// array; a mask that has other rows than the array is refused.
#[test]
fn cast_keeps_the_nulls_of_the_column() {
    let column = Column::Leaf(LeafColumn {
        data_type: ArrowDataType::Int32,
        len: 3,
        nulls: Some(vec![true, false, true]),
        values: Some(ArrayValues {
            array: Arc::new(Int32Array::from(vec![Some(1), Some(2), None])),
        }),
    });
    let batch = StructColumn {
        fields: vec![ArrowField::new("n", ArrowDataType::Int32, true)],
        columns: vec![column],
        nulls: None,
        len: 3,
    };
    let plan = vec![ReorderIndex::cast(0, ArrowDataType::Int64)];
    let ordered = reorder_struct_array(batch, &plan).unwrap();
    assert_eq!(
        leaf_nulls(&ordered.columns[0]),
        &Some(vec![true, false, false])
    );

    let column = Column::Leaf(LeafColumn {
        data_type: ArrowDataType::Int32,
        len: 3,
        nulls: Some(vec![true, false]),
        values: Some(ArrayValues { array: Arc::new(Int32Array::from(vec![1, 2, 3])) }),
    });
    let batch = StructColumn {
        fields: vec![ArrowField::new("n", ArrowDataType::Int32, true)],
        columns: vec![column],
        nulls: None,
        len: 3,
    };
    assert_eq!(fault_of(reorder_struct_array(batch, &plan)), Fault::MaskLength);
}

// A batch with a column that no node of the plan consumes does not fit the plan.
#[test]
fn unconsumed_column_is_an_internal_error() {
    // more columns than nodes
    let plan = vec![ReorderIndex::cast(0, ArrowDataType::Int64)];
    assert_eq!(
        fault_of(reorder_struct_array(struct_from(&make_struct_array()), &plan)),
        Fault::ColumnCountMismatch
    );
    // a column at the position of a node for a missing field
    let plan = vec![
        ReorderIndex::missing(1, ArrowField::new("x", ArrowDataType::Int32, true)),
        ReorderIndex::identity(0),
    ];
    assert_eq!(
        fault_of(reorder_struct_array(struct_from(&make_struct_array()), &plan)),
        Fault::ColumnCountMismatch
    );
}

// A value that does not fit the target of a cast is NULL in the result: the validity of the
// column after the cast is that of the cast array, not that of the column before.
#[test]
fn cast_takes_the_validity_of_the_result() {
    let seconds = arrow::array::TimestampSecondArray::from(vec![Some(1), Some(i64::MAX), None]);
    let batch = single(
        AField::new(
            "t",
            ADataType::Timestamp(ATimeUnit::Second, None),
            true,
        ),
        Arc::new(seconds),
    );
    let target = ArrowDataType::Timestamp(TimeUnit::Microsecond, None);
    let plan = vec![ReorderIndex::cast(0, target.clone())];
    let ordered = reorder_struct_array(batch, &plan).unwrap();
    match &ordered.columns[0] {
        Column::Leaf(leaf) => {
            assert_eq!(leaf.data_type, target);
            assert_eq!(leaf.len, 3);
            assert_eq!(leaf.nulls, Some(vec![true, false, false]));
        }
        _ => panic!("Expected a column without children"),
    }
    let back = struct_to(&ordered);
    assert_eq!(
        back.column(0)
            .as_primitive::<arrow::datatypes::TimestampMicrosecondType>(),
        &arrow::array::TimestampMicrosecondArray::from(vec![Some(1_000_000), None, None])
    );
}

// What follows a cast, on given values: the cast array is placed with the rows and the
// validity that were read of it, under the field with the target type; a failure is handed
// on as a buffer error.
#[test]
fn placing_a_cast() {
    let cast = || ArrayValues { array: Arc::new(Int64Array::from(vec![Some(7), None])) };
    let placed = column_reorder::reorder::place_cast(
        ArrowField::new("n", ArrowDataType::Int32, true),
        &ArrowDataType::Int64,
        Some(vec![false, true]),
        Ok((cast(), 2, Some(vec![true, false]))),
    )
    .unwrap();
    assert_eq!(placed.0, ArrowField::new("n", ArrowDataType::Int64, true));
    assert!(same_column(
        &placed.1,
        &Column::Leaf(LeafColumn {
            data_type: ArrowDataType::Int64,
            len: 2,
            nulls: Some(vec![false, false]),
            values: Some(cast()),
        })
    ));
    let misfit = column_reorder::reorder::place_cast(
        ArrowField::new("n", ArrowDataType::Int32, true),
        &ArrowDataType::Int64,
        None,
        Ok((cast(), 2, Some(vec![true]))),
    );
    assert!(matches!(misfit, Err(Error::InternalError(Fault::MaskLength))));
    let err = column_reorder::reorder::place_cast(
        ArrowField::new("n", ArrowDataType::Int32, true),
        &ArrowDataType::Int64,
        None,
        Err(arrow::error::ArrowError::CastError("no".to_string())),
    )
    .unwrap_err();
    assert_eq!(err.kind(), ErrorKind::BufferError);
    assert_eq!(err.message(), "Cast error: no");
}

// A column whose array has other rows than the batch is not aligned.
#[test]
fn array_rows_are_part_of_alignment() {
    let good = StructColumn {
        fields: vec![ArrowField::new("a", ArrowDataType::Int32, true)],
        columns: vec![int_leaf(vec![1, 2], None)],
        nulls: None,
        len: 2,
    };
    assert!(good.has_aligned_masks());
    let short = StructColumn {
        fields: vec![ArrowField::new("a", ArrowDataType::Int32, true)],
        columns: vec![Column::Leaf(LeafColumn {
            data_type: ArrowDataType::Int32,
            len: 2,
            nulls: None,
            values: Some(ArrayValues { array: Arc::new(Int32Array::from(vec![1])) }),
        })],
        nulls: None,
        len: 2,
    };
    assert!(!short.has_aligned_masks());
}

// What the file says of a column besides its type goes with the column: through a move and
// through a cast. A struct that is reshaped gets a field of its own.
#[test]
fn metadata_goes_with_the_field() {
    let tagged = |name: &str, data_type: ADataType, id: &str| {
        AField::new(name, data_type, false).with_metadata(
            [("PARQUET:field_id".to_string(), id.to_string())]
                .into_iter()
                .collect(),
        )
    };
    let inner = StructArray::from(vec![
        (
            Arc::new(tagged("x", ADataType::Int32, "3")),
            Arc::new(Int32Array::from(vec![1, 2])) as ArrayRef,
        ),
        (
            Arc::new(tagged("y", ADataType::Int32, "4")),
            Arc::new(Int32Array::from(vec![3, 4])) as ArrayRef,
        ),
    ]);
    let batch = StructArray::from(vec![
        (
            Arc::new(tagged("a", ADataType::Int32, "1")),
            Arc::new(Int32Array::from(vec![5, 6])) as ArrayRef,
        ),
        (
            Arc::new(tagged("s", inner.data_type().clone(), "2")),
            Arc::new(inner) as ArrayRef,
        ),
    ]);
    let plan = vec![
        ReorderIndex::cast(1, ArrowDataType::Int64),
        ReorderIndex::nested(
            0,
            vec![ReorderIndex::identity(1), ReorderIndex::identity(0)],
        ),
    ];
    let ordered = struct_to(&reorder_struct_array(struct_from(&batch), &plan).unwrap());
    let id = |field: &AField| field.metadata().get("PARQUET:field_id").cloned();
    assert_eq!(ordered.column_names(), vec!["s", "a"]);
    assert_eq!(id(&ordered.fields()[1]), Some("1".to_string()));
    assert_eq!(id(&ordered.fields()[0]), None);
    let reshaped = ordered.column(0).as_struct();
    assert_eq!(reshaped.column_names(), vec!["y", "x"]);
    assert_eq!(id(&reshaped.fields()[0]), Some("4".to_string()));
    assert_eq!(id(&reshaped.fields()[1]), Some("3".to_string()));
}
