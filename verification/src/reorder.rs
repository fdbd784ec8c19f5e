//! The reorderer: applies a plan to a decoded batch.
//!
//! The node at position `i` of a level speaks of the decoded column at position `i` and
//! sends it, transformed, to the node's target. A node for a missing field consumes no
//! column: it makes one of NULLs. The validity of the level itself passes through.

use crate::arrow_calls::{
    array_len, array_type, array_validity, cast_is_admitted, cast_outcome, cast_target_type,
    cast_values, is_cast_target, kind_of, length_of, source_kind, union_nulls, union_spec,
    validity_of, ArrayValues, CastTarget, SourceKind,
};
use arrow::error::ArrowError;
use crate::column::{
    column_aligned, column_len, column_type, column_view, column_wf, columns_view, into_options,
    mask_fits, mask_has_len, mask_view, masks_aligned, struct_wf, Column, ColumnView, LeafColumn,
    ListColumn, MapColumn, StructColumn, StructView,
};
use crate::error::{Error, ErrorView, Fault};
use crate::physical::{
    list_type_of, map_type_of, physical_fields_view, struct_type_of, ArrowDataType, ArrowField,
    PhysicalField, PhysicalType, TimeUnit,
};
use crate::plan::{
    level_needs_transform, ordering_needs_transform, plan_view, PlanNode, ReorderIndex,
    ReorderIndexTransform, Transform,
};
use vstd::prelude::*;
use vstd::string::*;

verus! {

/// An output position that a node has filled: the field and its column.
pub ghost struct Placed {
    pub field: PhysicalField,
    pub column: ColumnView,
}

/// Whether a validity mask marks some row as NULL.
pub open spec fn has_null(nulls: Option<Seq<bool>>) -> bool {
    nulls matches Some(bits) && exists|i: int| 0 <= i < bits.len() && !#[trigger] bits[i]
}

/// The column of `rows` NULLs of the given type.
pub open spec fn null_column(data_type: PhysicalType, rows: nat) -> ColumnView {
    ColumnView::Leaf {
        data_type,
        len: rows,
        nulls: Some(Seq::new(rows, |i: int| false)),
        buffers: None,
    }
}

/// The field `field` with another type: its name, its nullability and its metadata stay.
pub open spec fn retyped(field: PhysicalField, data_type: PhysicalType) -> PhysicalField {
    PhysicalField { name: field.name, data_type, nullable: field.nullable, metadata: field.metadata }
}

/// Whether a plan may ask a column of values of the kind `kind` to be cast to `target`: the
/// cast is one that arrow is asked for, or it leads from a date to a timestamp in
/// microseconds without a zone, which is cast in two steps.
pub open spec fn plan_admits(kind: SourceKind, target: PhysicalType) -> bool {
    cast_is_admitted(kind, target) || (kind is Date32 && target == PhysicalType::Timestamp(
        TimeUnit::Microsecond,
        None,
    ))
}

/// What arrow gives for the cast of an array to `target`. A date is first cast to a
/// timestamp in seconds and that to the target; every other array is cast at once.
pub open spec fn run_cast(stored: ArrayValues, target: PhysicalType) -> Result<
    ArrayValues,
    ArrowError,
> {
    if source_kind(array_type(stored)) is Date32 {
        match cast_outcome(stored, PhysicalType::Timestamp(TimeUnit::Second, None)) {
            Ok(seconds) => cast_outcome(seconds, target),
            Err(e) => Err(e),
        }
    } else {
        cast_outcome(stored, target)
    }
}

/// What is placed for a cast, from the validity of the column before and from what was read
/// of the cast: a column of the target type that holds the cast array, with the rows of that
/// array, NULL where the column was NULL before and where the cast array is NULL, under the
/// field with the target type; or the failure of the cast. A mask that has other rows than
/// the cast array is a failure.
pub open spec fn cast_placed(
    field: PhysicalField,
    target: PhysicalType,
    nulls: Option<Seq<bool>>,
    outcome: Result<(ArrayValues, nat, Option<Seq<bool>>), ArrowError>,
) -> Result<Placed, ErrorView> {
    match outcome {
        Ok((cast, len, validity)) => if !mask_fits(nulls, len) || !mask_fits(validity, len) {
            Err(ErrorView::InternalError(Fault::MaskLength))
        } else {
            Ok(
                Placed {
                    field: retyped(field, target),
                    column: ColumnView::Leaf {
                        data_type: target,
                        len,
                        nulls: union_spec(nulls, validity),
                        buffers: Some(cast),
                    },
                },
            )
        },
        Err(e) => Err(ErrorView::Arrow(e)),
    }
}

/// A column cast to `target`, under the field that describes it. Only a column without
/// children is cast, only to a type that a plan may ask for, and only where its values widen
/// to that type. The result is NULL where the column was NULL and where the cast array is
/// NULL: a value that does not fit the target is NULL. A column that holds no array is NULL
/// in every row and stays as it is, under the target type.
pub open spec fn cast_column(
    field: PhysicalField,
    column: ColumnView,
    target: PhysicalType,
) -> Result<Placed, ErrorView> {
    match column {
        ColumnView::Leaf { data_type, len, nulls, buffers } => if !is_cast_target(target) {
            Err(ErrorView::InternalError(Fault::CastTarget))
        } else {
            match buffers {
                None => Ok(
                    Placed {
                        field: retyped(field, target),
                        column: ColumnView::Leaf { data_type: target, len, nulls, buffers: None },
                    },
                ),
                Some(stored) => if !plan_admits(source_kind(array_type(stored)), target) {
                    Err(ErrorView::InternalError(Fault::CastSource))
                } else if !mask_fits(nulls, array_len(stored)) {
                    Err(ErrorView::InternalError(Fault::MaskLength))
                } else {
                    match run_cast(stored, target) {
                        Ok(cast) => Ok(
                            Placed {
                                field: retyped(field, target),
                                column: ColumnView::Leaf {
                                    data_type: target,
                                    len: array_len(cast),
                                    nulls: union_spec(nulls, array_validity(cast)),
                                    buffers: Some(cast),
                                },
                            },
                        ),
                        Err(e) => Err(ErrorView::Arrow(e)),
                    }
                },
            }
        },
        _ => Err(ErrorView::InternalError(Fault::CastOfNested)),
    }
}

/// Whether what was placed is a well-formed column of `rows` rows under a field of its type.
pub open spec fn placed_wf(placed: Placed, rows: nat) -> bool {
    &&& column_wf(placed.column)
    &&& column_len(placed.column) == rows
    &&& placed.field.data_type == column_type(placed.column)
}

/// Whether what was placed for a column keeps the shape of the column: its masks are
/// aligned with the rows that the column's masks are aligned with, and where the column is
/// well formed it is a well-formed column of as many rows, under a field of its type.
pub open spec fn keeps_shape(before: ColumnView, placed: Placed) -> bool {
    &&& forall|rows: nat| #[trigger]
        column_aligned(before, rows) ==> column_aligned(placed.column, rows)
    &&& column_wf(before) ==> placed_wf(placed, column_len(before))
}

/// Whether each output position that was filled holds a well-formed column of `rows` rows.
pub open spec fn slots_wf(slots: Seq<Option<Placed>>, rows: nat) -> bool {
    forall|i: int|
        0 <= i < slots.len() ==> ((#[trigger] slots[i]) matches Some(placed) ==> placed_wf(
            placed,
            rows,
        ))
}

/// Whether each output position that was filled holds a column whose masks are aligned with
/// `rows` rows.
pub open spec fn slots_aligned(slots: Seq<Option<Placed>>, rows: nat) -> bool {
    forall|i: int|
        0 <= i < slots.len() ==> ((#[trigger] slots[i]) matches Some(placed) ==> column_aligned(
            placed.column,
            rows,
        ))
}

/// A list column around the reshaped struct of its elements, under the field that describes
/// it. Offsets and validity are those of the list before.
pub open spec fn rewrap_list(
    field: PhysicalField,
    element: PhysicalField,
    large: bool,
    offsets: Seq<i64>,
    nulls: Option<Seq<bool>>,
    reshaped: StructView,
) -> Placed {
    let column = ColumnView::List {
        field: PhysicalField {
            name: element.name,
            data_type: PhysicalType::Struct(reshaped.fields),
            nullable: has_null(reshaped.nulls),
            metadata: Seq::empty(),
        },
        large,
        offsets,
        values: Box::new(ColumnView::Struct(reshaped)),
        nulls,
    };
    Placed {
        field: PhysicalField {
            name: field.name,
            data_type: column_type(column),
            nullable: element.nullable,
            metadata: Seq::empty(),
        },
        column,
    }
}

/// A map column around the reshaped struct of its entries, under the field that describes
/// it. Offsets, validity and ordering are those of the map before.
pub open spec fn rewrap_map(
    field: PhysicalField,
    entries_field: PhysicalField,
    offsets: Seq<i32>,
    nulls: Option<Seq<bool>>,
    ordered: bool,
    reshaped: StructView,
) -> Placed {
    let column = ColumnView::MapOf {
        field: PhysicalField {
            name: entries_field.name,
            data_type: PhysicalType::Struct(reshaped.fields),
            nullable: has_null(reshaped.nulls),
            metadata: Seq::empty(),
        },
        entry_offsets: offsets,
        entries: reshaped,
        nulls,
        ordered,
    };
    Placed {
        field: PhysicalField {
            name: field.name,
            data_type: column_type(column),
            nullable: entries_field.nullable,
            metadata: Seq::empty(),
        },
        column,
    }
}

/// A struct, list or map column with its children reshaped by `children`, under the field
/// that describes it.
pub open spec fn reorder_nested(
    field: PhysicalField,
    column: ColumnView,
    children: Seq<PlanNode>,
) -> Result<Placed, ErrorView>
    decreases children, children.len() + 2,
{
    match column {
        ColumnView::Struct(s) => match reorder_struct(s, children) {
            Ok(reshaped) => Ok(
                Placed {
                    field: PhysicalField {
                        name: field.name,
                        data_type: PhysicalType::Struct(reshaped.fields),
                        nullable: field.nullable,
                        metadata: Seq::empty(),
                    },
                    column: ColumnView::Struct(reshaped),
                },
            ),
            Err(e) => Err(e),
        },
        ColumnView::List { field: element, large, offsets, values, nulls } => match *values {
            ColumnView::Struct(s) => match reorder_struct(s, children) {
                Ok(reshaped) => Ok(rewrap_list(field, element, large, offsets, nulls, reshaped)),
                Err(e) => Err(e),
            },
            _ => Err(ErrorView::InternalError(Fault::ListWithoutStruct)),
        },
        ColumnView::MapOf { field: entries_field, entry_offsets, entries, nulls, ordered } => match reorder_struct(
            entries,
            children,
        ) {
            Ok(reshaped) => if reshaped.columns.len() != 2 {
                Err(ErrorView::InternalError(Fault::MapEntries))
            } else {
                Ok(rewrap_map(field, entries_field, entry_offsets, nulls, ordered, reshaped))
            },
            Err(e) => Err(e),
        },
        ColumnView::Leaf { .. } => Err(ErrorView::InternalError(Fault::NotNested)),
    }
}

/// What the node at `position` of a level puts at its target.
pub open spec fn shape_node(input: StructView, node: PlanNode, position: nat) -> Result<
    Placed,
    ErrorView,
>
    decreases node, 0nat,
{
    match node.transform {
        Transform::Missing(field) => Ok(
            Placed { field, column: null_column(field.data_type, input.len) },
        ),
        Transform::Identity => if position >= input.columns.len() || position
            >= input.fields.len() {
            Err(ErrorView::InternalError(Fault::ColumnCountMismatch))
        } else {
            Ok(Placed { field: input.fields[position as int], column: input.columns[position as int] })
        },
        Transform::Cast(target) => if position >= input.columns.len() || position
            >= input.fields.len() {
            Err(ErrorView::InternalError(Fault::ColumnCountMismatch))
        } else {
            cast_column(input.fields[position as int], input.columns[position as int], target)
        },
        Transform::Nested(children) => if position >= input.columns.len() || position
            >= input.fields.len() {
            Err(ErrorView::InternalError(Fault::ColumnCountMismatch))
        } else {
            reorder_nested(
                input.fields[position as int],
                input.columns[position as int],
                children,
            )
        },
    }
}

/// The output positions after the first `n` nodes of a level were placed, in plan order. A
/// later node that targets a position that an earlier one filled replaces what was there.
pub open spec fn place_nodes(input: StructView, plan: Seq<PlanNode>, n: nat) -> Result<
    Seq<Option<Placed>>,
    ErrorView,
>
    decreases plan, n,
{
    if n == 0 || n > plan.len() {
        Ok(Seq::new(plan.len(), |i: int| None))
    } else {
        match place_nodes(input, plan, (n - 1) as nat) {
            Err(e) => Err(e),
            Ok(slots) => match shape_node(input, plan[n - 1], (n - 1) as nat) {
                Err(e) => Err(e),
                Ok(placed) => if plan[n - 1].index >= plan.len() {
                    Err(ErrorView::InternalError(Fault::TargetOutOfRange))
                } else {
                    Ok(slots.update(plan[n - 1].index as int, Some(placed)))
                },
            },
        }
    }
}

/// Whether each column of the batch is consumed by a node of the plan: the plan has a node
/// at the position of each column, and that node is none for a missing field.
pub open spec fn every_column_consumed(input: StructView, plan: Seq<PlanNode>) -> bool {
    &&& input.columns.len() <= plan.len()
    &&& forall|k: int|
        0 <= k < input.columns.len() ==> !((#[trigger] plan[k]).transform is Missing)
}

/// The batch `input` reshaped by `plan`. Where the plan asks for no work the batch is the
/// result. Otherwise each column must be consumed by a node, each node places its column,
/// every output position must have been filled, and the validity and length of the level
/// are those of the input.
pub open spec fn reorder_struct(input: StructView, plan: Seq<PlanNode>) -> Result<
    StructView,
    ErrorView,
>
    decreases plan, plan.len() + 1,
{
    if !level_needs_transform(plan) {
        Ok(input)
    } else if !every_column_consumed(input, plan) {
        Err(ErrorView::InternalError(Fault::ColumnCountMismatch))
    } else {
        match place_nodes(input, plan, plan.len()) {
            Err(e) => Err(e),
            Ok(slots) => if exists|i: int| 0 <= i < slots.len() && (#[trigger] slots[i]) is None {
                Err(ErrorView::InternalError(Fault::UnfilledSlot))
            } else {
                Ok(
                    StructView {
                        fields: Seq::new(slots.len(), |i: int| slots[i]->Some_0.field),
                        columns: Seq::new(slots.len(), |i: int| slots[i]->Some_0.column),
                        nulls: input.nulls,
                        len: input.len,
                    },
                )
            },
        }
    }
}

/// What a call that shapes one column owes its caller: the field and the column, or the
/// failure.
pub open spec fn placed_outcome(
    expected: Result<Placed, ErrorView>,
    res: Result<(ArrowField, Column), Error>,
) -> bool {
    match expected {
        Ok(placed) => res matches Ok((field, column)) && field@ == placed.field && column@
            == placed.column,
        Err(e) => res matches Err(err) && err@ == e,
    }
}

/// The view of an output position.
pub open spec fn slot_view(slot: Option<(ArrowField, Column)>) -> Option<Placed> {
    match slot {
        Some((field, column)) => Some(Placed { field: field@, column: column@ }),
        None => None,
    }
}

/// The views of the output positions of a level.
pub open spec fn slots_view(slots: Seq<Option<(ArrowField, Column)>>) -> Seq<Option<Placed>> {
    Seq::new(slots.len(), |i: int| slot_view(slots[i]))
}

/// Whether a validity mask marks some row as NULL.
pub fn mask_has_null(nulls: &Option<Vec<bool>>) -> (b: bool)
    ensures
        b == has_null(mask_view(*nulls)),
{
    match nulls {
        None => false,
        Some(bits) => {
            let mut i: usize = 0;
            while i < bits.len()
                invariant
                    i <= bits.len(),
                    mask_view(*nulls) == Some(bits@),
                    forall|j: int| 0 <= j < i ==> bits[j],
                decreases bits.len() - i,
            {
                if !bits[i] {
                    assert(!mask_view(*nulls)->Some_0[i as int]);
                    return true;
                }
                i += 1;
            }
            false
        },
    }
}

/// The column of `rows` NULLs of the given type.
pub fn new_null_column(data_type: ArrowDataType, rows: usize) -> (c: Column)
    ensures
        c@ == null_column(data_type@, rows as nat),
{
    let mut bits: Vec<bool> = Vec::new();
    let mut i: usize = 0;
    while i < rows
        invariant
            i <= rows,
            bits.len() == i,
            forall|j: int| 0 <= j < i ==> !bits[j],
        decreases rows - i,
    {
        bits.push(false);
        i += 1;
    }
    assert(bits@ =~= Seq::new(rows as nat, |i: int| false));
    Column::Leaf(LeafColumn { data_type, len: rows, nulls: Some(bits), values: None })
}

/// The cast target that a type stands for, where a plan may ask a cast to it.
pub fn cast_target(target: &ArrowDataType) -> (res: Option<CastTarget>)
    ensures
        match res {
            Some(wanted) => is_cast_target(target@) && cast_target_type(wanted) == target@,
            None => !is_cast_target(target@),
        },
{
    match target {
        ArrowDataType::Int16 => Some(CastTarget::Int16),
        ArrowDataType::Int32 => Some(CastTarget::Int32),
        ArrowDataType::Int64 => Some(CastTarget::Int64),
        ArrowDataType::Float64 => Some(CastTarget::Float64),
        ArrowDataType::Decimal128(p, s) => {
            if 1 <= *p && *p <= 38 && *s as i16 <= *p as i16 {
                Some(CastTarget::Decimal128(*p, *s))
            } else {
                None
            }
        },
        ArrowDataType::Timestamp(TimeUnit::Microsecond, None) => Some(CastTarget::Micros(None)),
        ArrowDataType::Timestamp(TimeUnit::Microsecond, Some(zone)) => {
            let utc = String::from_str("UTC");
            if *zone == utc {
                Some(CastTarget::Micros(Some(utc)))
            } else {
                None
            }
        },
        _ => None,
    }
}

/// Whether the cast of values of the kind `kind` to `target` is one that arrow is asked
/// for.
pub fn admits(kind: SourceKind, target: &CastTarget) -> (b: bool)
    ensures
        b == cast_is_admitted(kind, cast_target_type(*target)),
{
    match target {
        CastTarget::Int16 => kind == SourceKind::Int8,
        CastTarget::Int32 => kind == SourceKind::Int8 || kind == SourceKind::Int16,
        CastTarget::Int64 => kind == SourceKind::Int8 || kind == SourceKind::Int16 || kind
            == SourceKind::Int32,
        CastTarget::Float64 => kind == SourceKind::Int8 || kind == SourceKind::Int16 || kind
            == SourceKind::Int32 || kind == SourceKind::Float32,
        CastTarget::Seconds => kind == SourceKind::Date32,
        CastTarget::Micros(zone) => {
            let in_zone = match zone {
                None => true,
                Some(name) => {
                    let utc = String::from_str("UTC");
                    *name == utc
                },
            };
            kind == SourceKind::Timestamp && in_zone
        },
        CastTarget::Decimal128(p, s) => {
            let (sp, ss): (u8, i8) = match kind {
                SourceKind::Decimal128(sp, ss) => (sp, ss),
                SourceKind::Int8 => (3, 0),
                SourceKind::Int16 => (5, 0),
                SourceKind::Int32 => (10, 0),
                SourceKind::Int64 => (20, 0),
                _ => {
                    return false;
                },
            };
            1 <= *p && *p <= 38 && *s as i16 <= *p as i16 && *p >= sp && *s >= ss && (*p
                - sp) as i16 >= *s as i16 - ss as i16
        },
    }
}

/// The view of what was read of a cast.
pub open spec fn cast_view(outcome: Result<(ArrayValues, usize, Option<Vec<bool>>), ArrowError>) -> Result<
    (ArrayValues, nat, Option<Seq<bool>>),
    ArrowError,
> {
    match outcome {
        Ok((cast, len, nulls)) => Ok((cast, len as nat, mask_view(nulls))),
        Err(e) => Err(e),
    }
}

/// Places what a cast gave: the cast array as a column of the target type, with its rows,
/// NULL where `nulls`, the validity of the column before, or the validity of the cast array
/// says so, under the field with the target type; or hands on the failure of the cast.
pub fn place_cast(
    field: ArrowField,
    target: &ArrowDataType,
    nulls: Option<Vec<bool>>,
    outcome: Result<(ArrayValues, usize, Option<Vec<bool>>), ArrowError>,
) -> (res: Result<(ArrowField, Column), Error>)
    ensures
        placed_outcome(cast_placed(field@, target@, mask_view(nulls), cast_view(outcome)), res),
{
    match outcome {
        Ok((cast, len, validity)) => {
            if !mask_has_len(&nulls, len) || !mask_has_len(&validity, len) {
                return Err(Error::InternalError(Fault::MaskLength));
            }
            let united = union_nulls(nulls.as_ref(), validity.as_ref());
            let ArrowField { name, data_type: _, nullable, metadata } = field;
            Ok(
                (
                    ArrowField { name, data_type: target.clone(), nullable, metadata: metadata },
                    Column::Leaf(
                        LeafColumn {
                            data_type: target.clone(),
                            len,
                            nulls: united,
                            values: Some(cast),
                        },
                    ),
                ),
            )
        },
        Err(e) => Err(Error::Arrow(e)),
    }
}

/// Casts a column without children to `target`, and gives its field the new type.
pub fn cast_leaf(field: ArrowField, column: Column, target: &ArrowDataType) -> (res: Result<
    (ArrowField, Column),
    Error,
>)
    ensures
        placed_outcome(cast_column(field@, column@, target@), res),
        res matches Ok((placed_field, placed_column)) ==> keeps_shape(
            column@,
            Placed { field: placed_field@, column: placed_column@ },
        ),
{
    match column {
        Column::Leaf(leaf) => {
            let wanted = match cast_target(target) {
                Some(wanted) => wanted,
                None => {
                    return Err(Error::InternalError(Fault::CastTarget));
                },
            };
            let LeafColumn { data_type, len, nulls, values } = leaf;
            match values {
                None => {
                    let ArrowField { name, data_type: _, nullable, metadata } = field;
                    Ok(
                        (
                            ArrowField { name, data_type: target.clone(), nullable, metadata: metadata },
                            Column::Leaf(
                                LeafColumn { data_type: target.clone(), len, nulls, values: None },
                            ),
                        ),
                    )
                },
                Some(stored) => {
                    let kind = kind_of(&stored);
                    let in_two_steps = match (kind, &wanted) {
                        (SourceKind::Date32, CastTarget::Micros(None)) => true,
                        _ => false,
                    };
                    if !in_two_steps && !admits(kind, &wanted) {
                        return Err(Error::InternalError(Fault::CastSource));
                    }
                    if !mask_has_len(&nulls, length_of(&stored)) {
                        return Err(Error::InternalError(Fault::MaskLength));
                    }
                    let cast = if in_two_steps {
                        match cast_values(&stored, &CastTarget::Seconds) {
                            Ok(seconds) => cast_values(&seconds, &wanted),
                            Err(e) => Err(e),
                        }
                    } else {
                        cast_values(&stored, &wanted)
                    };
                    let outcome = match cast {
                        Ok(cast) => {
                            let rows = length_of(&cast);
                            let validity = validity_of(&cast);
                            Ok((cast, rows, validity))
                        },
                        Err(e) => Err(e),
                    };
                    place_cast(field, target, nulls, outcome)
                },
            }
        },
        _ => Err(Error::InternalError(Fault::CastOfNested)),
    }
}

/// Reshapes the elements of a list column by `children` and wraps them again, with the
/// offsets and the validity that the list had.
pub fn reorder_list(list: ListColumn, input_field: ArrowField, children: &Vec<ReorderIndex>) -> (res:
    Result<(ArrowField, Column), Error>)
    ensures
        placed_outcome(
            reorder_nested(input_field@, Column::List(list)@, plan_view(*children)),
            res,
        ),
        res matches Ok((placed_field, placed_column)) ==> keeps_shape(
            Column::List(list)@,
            Placed { field: placed_field@, column: placed_column@ },
        ),
    decreases children, 1nat,
{
    let ghost whole = column_view(Column::List(list));
    let ListColumn { field: element, large, offsets, values, nulls } = list;
    assert(whole == ColumnView::List {
        field: element@,
        large,
        offsets: offsets@,
        values: Box::new(column_view(*values)),
        nulls: mask_view(nulls),
    });
    match *values {
        Column::Struct(elements) => {
            assert(column_wf(whole) ==> struct_wf(elements@)) by {
                reveal_with_fuel(column_wf, 2);
            }
            let reshaped = match reorder_struct_array(elements, children) {
                Ok(reshaped) => reshaped,
                Err(e) => {
                    return Err(e);
                },
            };
            let new_element = ArrowField::from_parts(
                element.name,
                struct_type_of(&reshaped.fields),
                mask_has_null(&reshaped.nulls),
            );
            let new_field = ArrowField::from_parts(
                input_field.name,
                list_type_of(&new_element, large),
                element.nullable,
            );
            assert(column_view(Column::Struct(reshaped)) == ColumnView::Struct(reshaped@));
            let new_column = Column::List(
                ListColumn {
                    field: new_element,
                    large,
                    offsets,
                    values: Box::new(Column::Struct(reshaped)),
                    nulls,
                },
            );
            assert(column_wf(whole) ==> column_wf(new_column@)) by {
                reveal_with_fuel(column_wf, 2);
            }
            Ok((new_field, new_column))
        },
        Column::Leaf(leaf) => {
            Err(Error::InternalError(Fault::ListWithoutStruct))
        },
        Column::List(inner) => {
            Err(Error::InternalError(Fault::ListWithoutStruct))
        },
        Column::MapOf(inner) => {
            Err(Error::InternalError(Fault::ListWithoutStruct))
        },
    }
}

/// Reshapes the entries of a map column by `children` and wraps them again, with the
/// offsets, the validity and the ordering that the map had.
pub fn reorder_map(map: MapColumn, input_field: ArrowField, children: &Vec<ReorderIndex>) -> (res:
    Result<(ArrowField, Column), Error>)
    ensures
        placed_outcome(
            reorder_nested(input_field@, Column::MapOf(map)@, plan_view(*children)),
            res,
        ),
        res matches Ok((placed_field, placed_column)) ==> keeps_shape(
            Column::MapOf(map)@,
            Placed { field: placed_field@, column: placed_column@ },
        ),
    decreases children, 1nat,
{
    let MapColumn { field: entries_field, offsets, entries, nulls, ordered } = map;
    let reshaped = match reorder_struct_array(entries, children) {
        Ok(reshaped) => reshaped,
        Err(e) => {
            return Err(e);
        },
    };
    if reshaped.columns.len() != 2 {
        return Err(Error::InternalError(Fault::MapEntries));
    }
    let new_entries = ArrowField::from_parts(
        entries_field.name,
        struct_type_of(&reshaped.fields),
        mask_has_null(&reshaped.nulls),
    );
    let new_field = ArrowField::from_parts(
        input_field.name,
        map_type_of(&new_entries, ordered),
        entries_field.nullable,
    );
    let new_column = Column::MapOf(
        MapColumn { field: new_entries, offsets, entries: reshaped, nulls, ordered },
    );
    Ok((new_field, new_column))
}

/// Reshapes the children of a struct, list or map column by `children`, and gives its field
/// the type of the result.
pub fn reorder_nested_column(field: ArrowField, column: Column, children: &Vec<ReorderIndex>) -> (res:
    Result<(ArrowField, Column), Error>)
    ensures
        placed_outcome(reorder_nested(field@, column@, plan_view(*children)), res),
        res matches Ok((placed_field, placed_column)) ==> keeps_shape(
            column@,
            Placed { field: placed_field@, column: placed_column@ },
        ),
    decreases children, 2nat,
{
    match column {
        Column::Struct(child) => {
            let reshaped = match reorder_struct_array(child, children) {
                Ok(reshaped) => reshaped,
                Err(e) => {
                    return Err(e);
                },
            };
            let new_field = ArrowField::from_parts(
                field.name,
                struct_type_of(&reshaped.fields),
                field.nullable,
            );
            Ok((new_field, Column::Struct(reshaped)))
        },
        Column::List(list) => reorder_list(list, field, children),
        Column::MapOf(map) => reorder_map(map, field, children),
        Column::Leaf(_) => Err(Error::InternalError(Fault::NotNested)),
    }
}

/// Reshapes a decoded batch by a plan: each column goes to the target of its node, cast or
/// reshaped below as the node says; a column of NULLs is made for each missing field.
///
/// Where the plan asks for no work the batch is returned as it is. Fails, and returns no
/// part of a batch, where the plan and the batch do not fit each other or a cast fails.
pub fn reorder_struct_array(input_data: StructColumn, requested_ordering: &Vec<ReorderIndex>) -> (res:
    Result<StructColumn, Error>)
    ensures
        match reorder_struct(input_data@, plan_view(*requested_ordering)) {
            Ok(reshaped) => res matches Ok(r) && r@ == reshaped,
            Err(e) => res matches Err(err) && err@ == e,
        },
        res matches Ok(r) ==> r@.len == input_data@.len && r@.nulls == input_data@.nulls,
        res matches Ok(r) ==> (masks_aligned(input_data@) ==> masks_aligned(r@)),
        res matches Ok(r) ==> (struct_wf(input_data@) ==> struct_wf(r@)),
    decreases requested_ordering, 0nat,
{
    if !ordering_needs_transform(requested_ordering) {
        return Ok(input_data);
    }
    let ghost input = input_data@;
    let ghost plan = plan_view(*requested_ordering);
    let StructColumn { fields, columns, nulls, len } = input_data;
    let num_cols = requested_ordering.len();
    let n_fields = fields.len();
    let n_columns = columns.len();
    if n_columns > num_cols {
        return Err(Error::InternalError(Fault::ColumnCountMismatch));
    }
    let mut c: usize = 0;
    while c < n_columns
        invariant
            c <= n_columns <= num_cols,
            num_cols == requested_ordering.len(),
            plan == plan_view(*requested_ordering),
            input.columns.len() == n_columns,
            level_needs_transform(plan),
            input == input_data@,
            forall|k: int| 0 <= k < c ==> !((#[trigger] plan[k]).transform is Missing),
        decreases n_columns - c,
    {
        assert(plan[c as int] == requested_ordering[c as int]@);
        match &requested_ordering[c].transform {
            ReorderIndexTransform::Missing(_) => {
                return Err(Error::InternalError(Fault::ColumnCountMismatch));
            },
            _ => {},
        }
        c += 1;
    }
    let mut in_fields = into_options(fields);
    let mut in_columns = into_options(columns);
    let mut slots: Vec<Option<(ArrowField, Column)>> = Vec::new();
    let mut k: usize = 0;
    while k < num_cols
        invariant
            k <= num_cols,
            slots.len() == k,
            forall|j: int| 0 <= j < k ==> slots[j] is None,
        decreases num_cols - k,
    {
        slots.push(None);
        k += 1;
    }
    assert(slots_view(slots@) =~= Seq::new(plan.len(), |i: int| None::<Placed>));
    let mut i: usize = 0;
    while i < num_cols
        invariant
            i <= num_cols,
            num_cols == requested_ordering.len(),
            plan == plan_view(*requested_ordering),
            plan.len() == num_cols,
            level_needs_transform(plan),
            every_column_consumed(input, plan),
            input == input_data@,
            input.fields == physical_fields_view(fields),
            input.columns == columns_view(columns),
            input.len == len,
            n_fields == fields.len(),
            n_columns == columns.len(),
            in_fields.len() == n_fields,
            in_columns.len() == n_columns,
            forall|j: int| i <= j < n_fields ==> #[trigger] in_fields[j] == Some(fields[j]),
            forall|j: int| i <= j < n_columns ==> #[trigger] in_columns[j] == Some(columns[j]),
            slots.len() == num_cols,
            place_nodes(input, plan, i as nat) == Ok::<Seq<Option<Placed>>, ErrorView>(
                slots_view(slots@),
            ),
            masks_aligned(input) ==> slots_aligned(slots_view(slots@), len as nat),
            struct_wf(input) ==> slots_wf(slots_view(slots@), len as nat),
        decreases num_cols - i,
    {
        let node = &requested_ordering[i];
        let ghost before = slots_view(slots@);
        let placed = match &node.transform {
            ReorderIndexTransform::Missing(field) => {
                (field.clone(), new_null_column(field.data_type.clone(), len))
            },
            ReorderIndexTransform::Identity => {
                if i >= n_columns || i >= n_fields {
                    proof {
                        lemma_place_step(input, plan, i as nat);
                        lemma_place_failure(input, plan, (i + 1) as nat);
                    }
                    return Err(Error::InternalError(Fault::ColumnCountMismatch));
                }
                let field = in_fields[i].take().unwrap();
                let column = in_columns[i].take().unwrap();
                (field, column)
            },
            ReorderIndexTransform::Cast(target) => {
                if i >= n_columns || i >= n_fields {
                    proof {
                        lemma_place_step(input, plan, i as nat);
                        lemma_place_failure(input, plan, (i + 1) as nat);
                    }
                    return Err(Error::InternalError(Fault::ColumnCountMismatch));
                }
                let field = in_fields[i].take().unwrap();
                let column = in_columns[i].take().unwrap();
                assert(masks_aligned(input) ==> column_aligned(column@, len as nat));
                match cast_leaf(field, column, target) {
                    Ok(placed) => placed,
                    Err(e) => {
                        proof {
                            lemma_place_step(input, plan, i as nat);
                            lemma_place_failure(input, plan, (i + 1) as nat);
                        }
                        return Err(e);
                    },
                }
            },
            ReorderIndexTransform::Nested(children) => {
                if i >= n_columns || i >= n_fields {
                    proof {
                        lemma_place_step(input, plan, i as nat);
                        lemma_place_failure(input, plan, (i + 1) as nat);
                    }
                    return Err(Error::InternalError(Fault::ColumnCountMismatch));
                }
                let field = in_fields[i].take().unwrap();
                let column = in_columns[i].take().unwrap();
                assert(masks_aligned(input) ==> column_aligned(column@, len as nat));
                match reorder_nested_column(field, column, children) {
                    Ok(placed) => placed,
                    Err(e) => {
                        proof {
                            lemma_place_step(input, plan, i as nat);
                            lemma_place_failure(input, plan, (i + 1) as nat);
                        }
                        return Err(e);
                    },
                }
            },
        };
        proof {
            lemma_place_step(input, plan, i as nat);
        }
        if node.index >= num_cols {
            proof {
                lemma_place_failure(input, plan, (i + 1) as nat);
            }
            return Err(Error::InternalError(Fault::TargetOutOfRange));
        }
        slots.set(node.index, Some(placed));
        assert(slots_view(slots@) =~= before.update(
            node.index as int,
            Some(Placed { field: placed.0@, column: placed.1@ }),
        ));
        i += 1;
    }
    let ghost placed_all = slots_view(slots@);
    let mut out_fields: Vec<ArrowField> = Vec::new();
    let mut out_columns: Vec<Column> = Vec::new();
    let mut j: usize = 0;
    while j < num_cols
        invariant
            j <= num_cols,
            slots.len() == num_cols,
            placed_all.len() == num_cols,
            plan.len() == num_cols,
            plan == plan_view(*requested_ordering),
            input == input_data@,
            level_needs_transform(plan),
            every_column_consumed(input, plan),
            place_nodes(input, plan, plan.len()) == Ok::<Seq<Option<Placed>>, ErrorView>(
                placed_all,
            ),
            masks_aligned(input) ==> slots_aligned(placed_all, len as nat),
            struct_wf(input) ==> slots_wf(placed_all, len as nat),
            out_fields.len() == j,
            out_columns.len() == j,
            forall|t: int| j <= t < num_cols ==> slot_view(#[trigger] slots[t]) == placed_all[t],
            forall|t: int| 0 <= t < j ==> (#[trigger] placed_all[t]) is Some,
            forall|t: int| 0 <= t < j ==> (#[trigger] out_fields[t])@ == placed_all[t]->Some_0.field,
            forall|t: int|
                0 <= t < j ==> (#[trigger] out_columns[t])@ == placed_all[t]->Some_0.column,
        decreases num_cols - j,
    {
        match slots[j].take() {
            None => {
                return Err(Error::InternalError(Fault::UnfilledSlot));
            },
            Some((field, column)) => {
                out_fields.push(field);
                out_columns.push(column);
            },
        }
        j += 1;
    }
    let res = StructColumn { fields: out_fields, columns: out_columns, nulls, len };
    proof {
        let expected = reorder_struct(input, plan)->Ok_0;
        assert(res@.fields =~= expected.fields);
        assert(res@.columns =~= expected.columns);
        assert forall|t: int| 0 <= t < res@.columns.len() implies (#[trigger] placed_all[t])
            == Some(Placed { field: res@.fields[t], column: res@.columns[t] }) by {}
        if masks_aligned(input) {
            assert forall|t: int| 0 <= t < res@.columns.len() implies column_aligned(
                #[trigger] res@.columns[t],
                res@.len,
            ) by {}
        }
        if struct_wf(input) {
            assert forall|t: int| 0 <= t < res@.columns.len() implies {
                &&& column_len(#[trigger] res@.columns[t]) == res@.len
                &&& res@.fields[t].data_type == column_type(res@.columns[t])
                &&& column_wf(res@.columns[t])
            } by {}
        }
    }
    Ok(res)
}

/// Placing one more node: the positions before, with what the node gives put at its
/// target.
pub proof fn lemma_place_step(input: StructView, plan: Seq<PlanNode>, n: nat)
    requires
        n < plan.len(),
    ensures
        place_nodes(input, plan, n + 1) == match place_nodes(input, plan, n) {
            Err(e) => Err::<Seq<Option<Placed>>, ErrorView>(e),
            Ok(slots) => match shape_node(input, plan[n as int], n) {
                Err(e) => Err(e),
                Ok(placed) => if plan[n as int].index >= plan.len() {
                    Err(ErrorView::InternalError(Fault::TargetOutOfRange))
                } else {
                    Ok(slots.update(plan[n as int].index as int, Some(placed)))
                },
            },
        },
{
}

/// A failure among the first `n` nodes of a level is the failure of the level.
pub proof fn lemma_place_failure(input: StructView, plan: Seq<PlanNode>, n: nat)
    requires
        n <= plan.len(),
        place_nodes(input, plan, n) is Err,
    ensures
        place_nodes(input, plan, plan.len()) == place_nodes(input, plan, n),
    decreases plan.len() - n,
{
    if n < plan.len() {
        lemma_place_failure(input, plan, n + 1);
    }
}

} // verus!
