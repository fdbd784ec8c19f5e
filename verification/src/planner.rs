//! The planner: from a logical and a physical schema to the leaf columns to decode and the
//! plan that reshapes them.
//!
//! Three index spaces meet here. A *position* is the place of a field in its physical level.
//! A *leaf index* counts the columns without children of the whole file, depth first: a
//! struct, a list or a map takes no leaf index itself, its descendants do. A *target* is the
//! place of a field in its logical level.

use crate::error::{path_of, Error, ErrorView, Fault};
use crate::physical::{
    physical_fields_view, physical_fields_wf, physical_type_view, ArrowDataType, ArrowField,
    PhysicalField, PhysicalType,
};
use crate::plan::{
    node_needs_transform, plan_is_bijection, plan_view, PlanNode, ReorderIndex, Transform,
};
use crate::planner_laws::{lemma_level_plan_is_bijection, lemma_plan_mask_ascends};
use crate::schema::{
    lemma_position_of, logical_type_view, position_of, unshredded_variant_fields, DataType,
    LogicalField, LogicalType, StructType,
};
use crate::widening::{
    ensure_data_types, field_image, leaf_compat, physical_field_of, Compat, DataTypeCompat,
};
use std::collections::HashSet;
use vstd::prelude::*;
use vstd::string::*;

verus! {

broadcast use vstd::std_specs::hash::group_hash_axioms;

/// The number of leaf columns under a physical type: one for a type without children, the
/// sum over the children otherwise.
pub open spec fn leaf_count(t: PhysicalType) -> nat
    decreases t, 0nat,
{
    match t {
        PhysicalType::Struct(fs) => fields_leaf_count(fs, fs.len()),
        PhysicalType::Union(fs, _, _) => fields_leaf_count(fs, fs.len()),
        PhysicalType::List(f) => leaf_count(f.data_type),
        PhysicalType::LargeList(f) => leaf_count(f.data_type),
        PhysicalType::ListView(f) => leaf_count(f.data_type),
        PhysicalType::LargeListView(f) => leaf_count(f.data_type),
        PhysicalType::FixedSizeList(f, _) => leaf_count(f.data_type),
        PhysicalType::MapOf(f, _) => leaf_count(f.data_type),
        PhysicalType::Dictionary(_, v) => leaf_count(*v),
        _ => 1,
    }
}

/// The number of leaf columns under the first `n` fields of a level.
pub open spec fn fields_leaf_count(fs: Seq<PhysicalField>, n: nat) -> nat
    decreases fs, n,
{
    if n == 0 || n > fs.len() {
        0
    } else {
        fields_leaf_count(fs, (n - 1) as nat) + leaf_count(fs[n - 1].data_type)
    }
}

/// What the planner gives for one physical field: its node, and the leaf indices to decode
/// for it, in the order of the file.
pub ghost struct FieldPlan {
    pub node: PlanNode,
    pub mask: Seq<nat>,
}

/// What the planner gives for one level: its nodes, and the leaf indices to decode for it.
pub ghost struct LevelPlan {
    pub nodes: Seq<PlanNode>,
    pub mask: Seq<nat>,
}

/// Whether a physical type stores a variant whole: a struct of exactly the two binary fields
/// `metadata` and `value`, in either order.
pub open spec fn is_unshredded_storage(t: PhysicalType) -> bool {
    match t {
        PhysicalType::Struct(fs) => fs.len() == 2 && fs[0].data_type == PhysicalType::Binary
            && fs[1].data_type == PhysicalType::Binary && ((fs[0].name == "value"@ && fs[1].name
            == "metadata"@) || (fs[0].name == "metadata"@ && fs[1].name == "value"@)),
        _ => false,
    }
}

/// The fields of a logical type that is stored as a struct.
pub open spec fn struct_fields(t: LogicalType) -> Option<Seq<LogicalField>> {
    match t {
        LogicalType::Struct(fs) => Some(fs),
        LogicalType::Variant(fs) => Some(fs),
        _ => None,
    }
}

/// The node of a map, from the nodes of its key and its value. A child that needs no
/// transform is placed as it is; where neither needs one, so is the map.
pub open spec fn map_node(index: nat, key: PlanNode, value: PlanNode) -> PlanNode {
    let k = if node_needs_transform(key) {
        key
    } else {
        PlanNode { index: 0, transform: Transform::Identity }
    };
    let v = if node_needs_transform(value) {
        value
    } else {
        PlanNode { index: 1, transform: Transform::Identity }
    };
    if !node_needs_transform(key) && !node_needs_transform(value) {
        PlanNode { index, transform: Transform::Identity }
    } else {
        PlanNode { index, transform: Transform::Nested(seq![k, v]) }
    }
}

/// The plan for one physical field that the logical schema asks for, as the type `requested`
/// and at the target `index`. `leaf` is the leaf index of the field's first leaf column.
pub open spec fn plan_field(
    requested: LogicalType,
    index: nat,
    field: PhysicalField,
    leaf: nat,
) -> Result<FieldPlan, ErrorView>
    decreases field, 0nat,
{
    if requested == LogicalType::Variant(unshredded_variant_fields()) && !is_unshredded_storage(
        field.data_type,
    ) {
        Err(ErrorView::UnsupportedVariantShredding(seq![field.name]))
    } else {
        match field.data_type {
            PhysicalType::Struct(fs) => match struct_fields(requested) {
                Some(wanted) => match plan_level(wanted, fs, leaf) {
                    Ok(level) => Ok(
                        FieldPlan {
                            node: PlanNode { index, transform: Transform::Nested(level.nodes) },
                            mask: level.mask,
                        },
                    ),
                    Err(e) => Err(e.within(field.name)),
                },
                None => Err(ErrorView::TypeMismatch(seq![field.name])),
            },
            PhysicalType::List(f) => plan_list(requested, index, field, *f, leaf),
            PhysicalType::LargeList(f) => plan_list(requested, index, field, *f, leaf),
            PhysicalType::ListView(f) => plan_list(requested, index, field, *f, leaf),
            PhysicalType::MapOf(entries, _) => match requested {
                LogicalType::MapOf(k, v, _) => match entries.data_type {
                    PhysicalType::Struct(kv) => if kv.len() != 2 {
                        Err(ErrorView::MalformedMapShape(seq![field.name]))
                    } else {
                        match plan_field(*k, 0, kv[0], leaf) {
                            Err(e) => Err(e.within(field.name)),
                            Ok(key) => match plan_field(
                                *v,
                                1,
                                kv[1],
                                leaf + leaf_count(kv[0].data_type),
                            ) {
                                Err(e) => Err(e.within(field.name)),
                                Ok(value) => Ok(
                                    FieldPlan {
                                        node: map_node(index, key.node, value.node),
                                        mask: key.mask + value.mask,
                                    },
                                ),
                            },
                        }
                    },
                    _ => Err(ErrorView::MalformedMapShape(seq![field.name])),
                },
                _ => Err(ErrorView::TypeMismatch(seq![field.name])),
            },
            _ => match leaf_compat(requested, field.data_type) {
                Compat::Identical => Ok(
                    FieldPlan {
                        node: PlanNode { index, transform: Transform::Identity },
                        mask: seq![leaf],
                    },
                ),
                Compat::NeedsCast(target) => Ok(
                    FieldPlan {
                        node: PlanNode { index, transform: Transform::Cast(target) },
                        mask: seq![leaf],
                    },
                ),
                Compat::Incompatible => Err(ErrorView::TypeMismatch(seq![field.name])),
            },
        }
    }
}

/// The plan for a physical list `field` whose elements are the field `element`: that of the
/// element, read as the element type of the logical list, at the list's own target.
pub open spec fn plan_list(
    requested: LogicalType,
    index: nat,
    field: PhysicalField,
    element: PhysicalField,
    leaf: nat,
) -> Result<FieldPlan, ErrorView>
    decreases element, 1nat,
{
    match requested {
        LogicalType::Array(wanted, _) => match plan_field(*wanted, index, element, leaf) {
            Ok(p) => Ok(p),
            Err(e) => Err(e.within(field.name)),
        },
        _ => Err(ErrorView::TypeMismatch(seq![field.name])),
    }
}

/// The plan for the first `n` physical fields of a level that starts at the leaf index
/// `start`: a node for each field that the logical level names, in the order of the file. A
/// field that it does not name gives no node; its leaves are skipped.
pub open spec fn plan_prefix(
    requested: Seq<LogicalField>,
    fields: Seq<PhysicalField>,
    n: nat,
    start: nat,
) -> Result<LevelPlan, ErrorView>
    decreases fields, n,
{
    if n == 0 || n > fields.len() {
        Ok(LevelPlan { nodes: seq![], mask: seq![] })
    } else {
        match plan_prefix(requested, fields, (n - 1) as nat, start) {
            Err(e) => Err(e),
            Ok(acc) => {
                let field = fields[n - 1];
                match position_of(requested, field.name) {
                    None => Ok(acc),
                    Some(j) => match plan_field(
                        requested[j].data_type,
                        j as nat,
                        field,
                        start + fields_leaf_count(fields, (n - 1) as nat),
                    ) {
                        Err(e) => Err(e),
                        Ok(p) => Ok(
                            LevelPlan { nodes: acc.nodes.push(p.node), mask: acc.mask + p.mask },
                        ),
                    },
                }
            },
        }
    }
}

/// Whether some physical field of the level is read as the logical field at `target`.
pub open spec fn is_found(
    requested: Seq<LogicalField>,
    fields: Seq<PhysicalField>,
    target: int,
) -> bool {
    exists|i: int|
        0 <= i < fields.len() && position_of(requested, (#[trigger] fields[i]).name) == Some(
            target,
        )
}

/// The nodes for those of the first `m` logical fields that no physical field is read as: a
/// column of NULLs for each, in logical order. A field that may not be NULL fails the plan.
pub open spec fn missing_nodes(
    requested: Seq<LogicalField>,
    fields: Seq<PhysicalField>,
    m: nat,
) -> Result<Seq<PlanNode>, ErrorView>
    decreases m,
{
    if m == 0 || m > requested.len() {
        Ok(seq![])
    } else {
        match missing_nodes(requested, fields, (m - 1) as nat) {
            Err(e) => Err(e),
            Ok(nodes) => {
                let wanted = requested[m - 1];
                if is_found(requested, fields, m - 1) {
                    Ok(nodes)
                } else if wanted.nullable {
                    Ok(
                        nodes.push(
                            PlanNode {
                                index: (m - 1) as nat,
                                transform: Transform::Missing(field_image(wanted)),
                            },
                        ),
                    )
                } else {
                    Err(ErrorView::MissingRequiredColumn(seq![wanted.name]))
                }
            },
        }
    }
}

/// The plan for a level: the nodes of the physical fields that the logical level names, then
/// the nodes of the logical fields that the file lacks.
pub open spec fn plan_level(
    requested: Seq<LogicalField>,
    fields: Seq<PhysicalField>,
    start: nat,
) -> Result<LevelPlan, ErrorView>
    decreases fields, fields.len() + 1,
{
    match plan_prefix(requested, fields, fields.len(), start) {
        Err(e) => Err(e),
        Ok(acc) => match missing_nodes(requested, fields, requested.len()) {
            Err(e) => Err(e),
            Ok(missing) => Ok(LevelPlan { nodes: acc.nodes + missing, mask: acc.mask }),
        },
    }
}

/// Whether the leaf indices ascend strictly and stay from `lo` up to, not including, `hi`.
pub open spec fn ascending_within(mask: Seq<nat>, lo: nat, hi: nat) -> bool {
    &&& forall|a: int| 0 <= a < mask.len() ==> lo <= #[trigger] mask[a] < hi
    &&& forall|a: int, b: int| 0 <= a < b < mask.len() ==> #[trigger] mask[a] < #[trigger] mask[b]
}

/// The leaf indices that a vector of machine integers holds.
pub open spec fn indices_view(v: Seq<usize>) -> Seq<nat> {
    v.map_values(|i: usize| i as nat)
}

/// The leaf count of a prefix of a level is at most that of a longer prefix.
pub proof fn lemma_fields_leaf_count_monotone(fs: Seq<PhysicalField>, m: nat, n: nat)
    requires
        m <= n <= fs.len(),
    ensures
        fields_leaf_count(fs, m) <= fields_leaf_count(fs, n),
    decreases n,
{
    if m < n {
        lemma_fields_leaf_count_monotone(fs, m, (n - 1) as nat);
    }
}

/// The leaf count of a level of two fields is the sum of theirs.
pub proof fn lemma_fields_leaf_count_two(fs: Seq<PhysicalField>)
    requires
        fs.len() == 2,
    ensures
        fields_leaf_count(fs, 2) == leaf_count(fs[0].data_type) + leaf_count(fs[1].data_type),
{
    reveal_with_fuel(fields_leaf_count, 3);
}

/// The number of leaf columns under a physical type.
pub fn _count_cols(dt: &ArrowDataType) -> (n: usize)
    requires
        leaf_count(dt@) <= usize::MAX,
    ensures
        n == leaf_count(dt@),
    decreases dt, 0nat,
{
    proof {
        reveal_with_fuel(physical_type_view, 2);
    }
    match dt {
        ArrowDataType::Struct(fields) => count_fields_cols(fields),
        ArrowDataType::Union(fields, _, _) => count_fields_cols(fields),
        ArrowDataType::List(field) => count_cols(field),
        ArrowDataType::LargeList(field) => count_cols(field),
        ArrowDataType::ListView(field) => count_cols(field),
        ArrowDataType::LargeListView(field) => count_cols(field),
        ArrowDataType::FixedSizeList(field, _) => count_cols(field),
        ArrowDataType::MapOf(field, _) => count_cols(field),
        ArrowDataType::Dictionary(_, value) => _count_cols(value),
        _ => 1,
    }
}

/// The number of leaf columns under a physical field.
pub fn count_cols(field: &ArrowField) -> (n: usize)
    requires
        leaf_count(field@.data_type) <= usize::MAX,
    ensures
        n == leaf_count(field@.data_type),
    decreases field, 1nat,
{
    _count_cols(&field.data_type)
}

/// The number of leaf columns under the fields of a level.
pub fn count_fields_cols(fields: &Vec<ArrowField>) -> (n: usize)
    requires
        fields_leaf_count(physical_fields_view(*fields), fields.len() as nat) <= usize::MAX,
    ensures
        n == fields_leaf_count(physical_fields_view(*fields), fields.len() as nat),
    decreases fields, 0nat,
{
    let ghost fs = physical_fields_view(*fields);
    let mut n: usize = 0;
    let mut i: usize = 0;
    while i < fields.len()
        invariant
            i <= fields.len(),
            fs == physical_fields_view(*fields),
            fields_leaf_count(fs, fields.len() as nat) <= usize::MAX,
            n == fields_leaf_count(fs, i as nat),
        decreases fields.len() - i,
    {
        proof {
            lemma_fields_leaf_count_monotone(fs, (i + 1) as nat, fields.len() as nat);
        }
        let c = count_cols(&fields[i]);
        n = n + c;
        i += 1;
    }
    n
}

/// The number of leaf columns under a physical type, or `None` where a machine integer does
/// not hold it.
pub fn checked_count_type(dt: &ArrowDataType) -> (n: Option<usize>)
    ensures
        match n {
            Some(count) => count == leaf_count(dt@),
            None => leaf_count(dt@) > usize::MAX,
        },
    decreases dt, 0nat,
{
    proof {
        reveal_with_fuel(physical_type_view, 2);
    }
    match dt {
        ArrowDataType::Struct(fields) => checked_count_fields(fields),
        ArrowDataType::Union(fields, _, _) => checked_count_fields(fields),
        ArrowDataType::List(field) => checked_count_cols(field),
        ArrowDataType::LargeList(field) => checked_count_cols(field),
        ArrowDataType::ListView(field) => checked_count_cols(field),
        ArrowDataType::LargeListView(field) => checked_count_cols(field),
        ArrowDataType::FixedSizeList(field, _) => checked_count_cols(field),
        ArrowDataType::MapOf(field, _) => checked_count_cols(field),
        ArrowDataType::Dictionary(_, value) => checked_count_type(value),
        _ => Some(1),
    }
}

/// The number of leaf columns under a physical field, or `None` where a machine integer does
/// not hold it.
pub fn checked_count_cols(field: &ArrowField) -> (n: Option<usize>)
    ensures
        match n {
            Some(count) => count == leaf_count(field@.data_type),
            None => leaf_count(field@.data_type) > usize::MAX,
        },
    decreases field, 1nat,
{
    checked_count_type(&field.data_type)
}

/// The number of leaf columns under the fields of a level, or `None` where a machine
/// integer does not hold it.
pub fn checked_count_fields(fields: &Vec<ArrowField>) -> (n: Option<usize>)
    ensures
        match n {
            Some(count) => count == fields_leaf_count(
                physical_fields_view(*fields),
                fields.len() as nat,
            ),
            None => fields_leaf_count(physical_fields_view(*fields), fields.len() as nat)
                > usize::MAX,
        },
    decreases fields, 0nat,
{
    let ghost fs = physical_fields_view(*fields);
    let mut n: usize = 0;
    let mut i: usize = 0;
    while i < fields.len()
        invariant
            i <= fields.len(),
            fs == physical_fields_view(*fields),
            n == fields_leaf_count(fs, i as nat),
        decreases fields.len() - i,
    {
        proof {
            lemma_fields_leaf_count_monotone(fs, (i + 1) as nat, fields.len() as nat);
        }
        let c = match checked_count_cols(&fields[i]) {
            Some(c) => c,
            None => {
                return None;
            },
        };
        n = match n.checked_add(c) {
            Some(sum) => sum,
            None => {
                return None;
            },
        };
        i += 1;
    }
    Some(n)
}

/// The position of the first logical field with the given name, if there is one.
pub fn find_field(requested_schema: &StructType, name: &String) -> (res: Option<usize>)
    ensures
        match position_of(requested_schema@, name@) {
            Some(j) => res == Some(j as usize) && 0 <= j < requested_schema.fields.len(),
            None => res is None,
        },
{
    let ghost fs = requested_schema@;
    proof {
        lemma_position_of(fs, name@);
    }
    let mut i: usize = 0;
    while i < requested_schema.fields.len()
        invariant
            i <= requested_schema.fields.len(),
            fs == requested_schema@,
            fs.len() == requested_schema.fields.len(),
            forall|j: int| 0 <= j < i ==> (#[trigger] fs[j]).name != name@,
        decreases requested_schema.fields.len() - i,
    {
        assert(fs[i as int] == requested_schema.fields[i as int]@);
        if requested_schema.fields[i].name == *name {
            proof {
                lemma_position_of(fs, name@);
            }
            return Some(i);
        }
        i += 1;
    }
    proof {
        lemma_position_of(fs, name@);
    }
    None
}

/// Checks that the physical field stores a variant whole, as a struct of `metadata` and
/// `value`: a variant that the file has shredded over more columns is not read.
pub fn validate_parquet_variant(field: &ArrowField) -> (res: Result<(), Error>)
    ensures
        is_unshredded_storage(field@.data_type) ==> res is Ok,
        !is_unshredded_storage(field@.data_type) ==> (res matches Err(e) && e@
            == ErrorView::UnsupportedVariantShredding(seq![field@.name])),
{
    match &field.data_type {
        ArrowDataType::Struct(fields) => {
            assert(field@.data_type == PhysicalType::Struct(physical_fields_view(*fields))) by {
                reveal_with_fuel(physical_type_view, 2);
            }
            if fields.len() != 2 {
                return Err(Error::UnsupportedVariantShredding(path_of(&field.name)));
            }
            let metadata = String::from_str("metadata");
            let value = String::from_str("value");
            let binary = match (&fields[0].data_type, &fields[1].data_type) {
                (ArrowDataType::Binary, ArrowDataType::Binary) => true,
                _ => false,
            };
            if binary && ((fields[0].name == value && fields[1].name == metadata) || (
            fields[0].name == metadata && fields[1].name == value)) {
                Ok(())
            } else {
                Err(Error::UnsupportedVariantShredding(path_of(&field.name)))
            }
        },
        _ => Err(Error::UnsupportedVariantShredding(path_of(&field.name))),
    }
}

/// What a call that plans one field owes its caller: the field's plan, its leaf indices
/// appended to the mask, and the number of leaves that the field covers; or the failure.
pub open spec fn field_outcome(
    expected: Result<FieldPlan, ErrorView>,
    span: nat,
    res: Result<(usize, ReorderIndex), Error>,
    mask_before: Seq<usize>,
    mask_after: Seq<usize>,
) -> bool {
    match expected {
        Ok(plan) => {
            &&& res matches Ok((advance, node))
            &&& advance == span
            &&& node@ == plan.node
            &&& indices_view(mask_after) == indices_view(mask_before) + plan.mask
        },
        Err(e) => res matches Err(err) && err@ == e,
    }
}

/// What a call that plans one level owes its caller.
pub open spec fn level_outcome(
    expected: Result<LevelPlan, ErrorView>,
    span: nat,
    res: Result<(usize, Vec<ReorderIndex>), Error>,
    mask_before: Seq<usize>,
    mask_after: Seq<usize>,
) -> bool {
    match expected {
        Ok(plan) => {
            &&& res matches Ok((advance, nodes))
            &&& advance == span
            &&& plan_view(nodes) == plan.nodes
            &&& indices_view(mask_after) == indices_view(mask_before) + plan.mask
        },
        Err(e) => res matches Err(err) && err@ == e,
    }
}

/// Plans one physical field that the logical schema asks for, as the type `requested` and at
/// the target `index`. `leaf` is the leaf index of the field's first leaf column. The leaf
/// indices to decode are appended to `mask_indices`. Returns the number of leaf columns that
/// the field covers, and its node.
pub fn get_field_indices(
    index: usize,
    requested: &DataType,
    field: &ArrowField,
    leaf: usize,
    mask_indices: &mut Vec<usize>,
) -> (res: Result<(usize, ReorderIndex), Error>)
    requires
        leaf + leaf_count(field@.data_type) <= usize::MAX,
    ensures
        field_outcome(
            plan_field(requested@, index as nat, field@, leaf as nat),
            leaf_count(field@.data_type),
            res,
            old(mask_indices)@,
            final(mask_indices)@,
        ),
    decreases field, 0nat,
{
    if requested.is_unshredded_variant() {
        match validate_parquet_variant(field) {
            Err(e) => {
                return Err(e);
            },
            Ok(_) => {},
        }
    }
    match &field.data_type {
        ArrowDataType::Struct(fields) => {
            assert(field@.data_type == PhysicalType::Struct(physical_fields_view(*fields))) by {
                reveal_with_fuel(physical_type_view, 2);
            }
            let wanted = match requested {
                DataType::Struct(s) => s,
                DataType::Variant(s) => s,
                _ => {
                    return Err(Error::TypeMismatch(path_of(&field.name)));
                },
            };
            assert(struct_fields(requested@) == Some(wanted@)) by {
                reveal_with_fuel(logical_type_view, 2);
            }
            match get_indices(leaf, wanted, fields, mask_indices) {
                Ok((advance, children)) => Ok((advance, ReorderIndex::nested(index, children))),
                Err(e) => Err(e.within(&field.name)),
            }
        },
        ArrowDataType::List(element) => {
            assert(field@.data_type == PhysicalType::List(Box::new(element@))) by {
                reveal_with_fuel(physical_type_view, 2);
            }
            get_list_indices(index, requested, field, element, leaf, mask_indices)
        },
        ArrowDataType::LargeList(element) => {
            assert(field@.data_type == PhysicalType::LargeList(Box::new(element@))) by {
                reveal_with_fuel(physical_type_view, 2);
            }
            get_list_indices(index, requested, field, element, leaf, mask_indices)
        },
        ArrowDataType::ListView(element) => {
            assert(field@.data_type == PhysicalType::ListView(Box::new(element@))) by {
                reveal_with_fuel(physical_type_view, 2);
            }
            get_list_indices(index, requested, field, element, leaf, mask_indices)
        },
        ArrowDataType::MapOf(entries, sorted) => {
            assert(field@.data_type == PhysicalType::MapOf(Box::new(entries@), *sorted)) by {
                reveal_with_fuel(physical_type_view, 2);
            }
            let wanted = match requested {
                DataType::MapOf(wanted) => wanted,
                _ => {
                    assert(!(requested@ is MapOf)) by {
                        reveal_with_fuel(logical_type_view, 2);
                    }
                    return Err(Error::TypeMismatch(path_of(&field.name)));
                },
            };
            match &entries.data_type {
                ArrowDataType::Struct(kv) => {
                    let ghost kvs = physical_fields_view(*kv);
                    assert(entries@.data_type == PhysicalType::Struct(kvs)) by {
                        reveal_with_fuel(physical_type_view, 2);
                    }
                    assert(requested@ == LogicalType::MapOf(
                        Box::new(wanted.key_type@),
                        Box::new(wanted.value_type@),
                        wanted.value_contains_null,
                    )) by {
                        reveal_with_fuel(logical_type_view, 2);
                    }
                    if kv.len() != 2 {
                        return Err(Error::MalformedMapShape(path_of(&field.name)));
                    }
                    proof {
                        lemma_fields_leaf_count_two(kvs);
                        assert(leaf_count(field@.data_type) == fields_leaf_count(kvs, 2)) by {
                            reveal_with_fuel(leaf_count, 3);
                        }
                    }
                    let (key_span, key) = match get_field_indices(
                        0,
                        &wanted.key_type,
                        &kv[0],
                        leaf,
                        mask_indices,
                    ) {
                        Ok(planned) => planned,
                        Err(e) => {
                            return Err(e.within(&field.name));
                        },
                    };
                    let (value_span, value) = match get_field_indices(
                        1,
                        &wanted.value_type,
                        &kv[1],
                        leaf + key_span,
                        mask_indices,
                    ) {
                        Ok(planned) => planned,
                        Err(e) => {
                            return Err(e.within(&field.name));
                        },
                    };
                    proof {
                        let key_plan = plan_field(wanted.key_type@, 0, kvs[0], leaf as nat)->Ok_0;
                        let value_plan = plan_field(
                            wanted.value_type@,
                            1,
                            kvs[1],
                            leaf as nat + leaf_count(kvs[0].data_type),
                        )->Ok_0;
                        assert(indices_view(mask_indices@) =~= indices_view(old(mask_indices)@)
                            + (key_plan.mask + value_plan.mask));
                    }
                    let key_plain = !key.needs_transform();
                    let value_plain = !value.needs_transform();
                    let node = if key_plain && value_plain {
                        ReorderIndex::identity(index)
                    } else {
                        let k = if key_plain {
                            ReorderIndex::identity(0)
                        } else {
                            key
                        };
                        let v = if value_plain {
                            ReorderIndex::identity(1)
                        } else {
                            value
                        };
                        let mut children: Vec<ReorderIndex> = Vec::new();
                        children.push(k);
                        children.push(v);
                        assert(plan_view(children) =~= seq![k@, v@]);
                        ReorderIndex::nested(index, children)
                    };
                    Ok((key_span + value_span, node))
                },
                _ => {
                    assert(!(entries@.data_type is Struct) && requested@ is MapOf) by {
                        reveal_with_fuel(physical_type_view, 2);
                        reveal_with_fuel(logical_type_view, 2);
                    }
                    Err(Error::MalformedMapShape(path_of(&field.name)))
                },
            }
        },
        _ => {
            assert(!(field@.data_type is Struct) && !(field@.data_type is List) && !(
            field@.data_type is LargeList) && !(field@.data_type is ListView) && !(
            field@.data_type is MapOf)) by {
                reveal_with_fuel(physical_type_view, 2);
            }
            match ensure_data_types(requested, &field.data_type) {
                Some(DataTypeCompat::Identical) => {
                    mask_indices.push(leaf);
                    assert(indices_view(mask_indices@) =~= indices_view(old(mask_indices)@)
                        + seq![leaf as nat]);
                    Ok((1, ReorderIndex::identity(index)))
                },
                Some(DataTypeCompat::NeedsCast(target)) => {
                    mask_indices.push(leaf);
                    assert(indices_view(mask_indices@) =~= indices_view(old(mask_indices)@)
                        + seq![leaf as nat]);
                    Ok((1, ReorderIndex::cast(index, target)))
                },
                None => Err(Error::TypeMismatch(path_of(&field.name))),
            }
        },
    }
}

/// Plans a physical list `field` whose elements are the field `element`.
pub fn get_list_indices(
    index: usize,
    requested: &DataType,
    field: &ArrowField,
    element: &ArrowField,
    leaf: usize,
    mask_indices: &mut Vec<usize>,
) -> (res: Result<(usize, ReorderIndex), Error>)
    requires
        leaf + leaf_count(element@.data_type) <= usize::MAX,
    ensures
        field_outcome(
            plan_list(requested@, index as nat, field@, element@, leaf as nat),
            leaf_count(element@.data_type),
            res,
            old(mask_indices)@,
            final(mask_indices)@,
        ),
    decreases element, 1nat,
{
    match requested {
        DataType::Array(wanted) => {
            assert(requested@ == LogicalType::Array(
                Box::new(wanted.element_type@),
                wanted.contains_null,
            )) by {
                reveal_with_fuel(logical_type_view, 2);
            }
            match get_field_indices(index, &wanted.element_type, element, leaf, mask_indices) {
                Ok(planned) => Ok(planned),
                Err(e) => Err(e.within(&field.name)),
            }
        },
        _ => {
            assert(!(requested@ is Array)) by {
                reveal_with_fuel(logical_type_view, 2);
            }
            Err(Error::TypeMismatch(path_of(&field.name)))
        },
    }
}

/// Plans one level: the physical `fields`, which start at the leaf index
/// `start_parquet_offset`, against the logical level `requested_schema`. The leaf indices to
/// decode are appended to `mask_indices`. Returns the number of leaf columns that the fields
/// cover, whether asked for or not, and the nodes of the level.
pub fn get_indices(
    start_parquet_offset: usize,
    requested_schema: &StructType,
    fields: &Vec<ArrowField>,
    mask_indices: &mut Vec<usize>,
) -> (res: Result<(usize, Vec<ReorderIndex>), Error>)
    requires
        start_parquet_offset + fields_leaf_count(
            physical_fields_view(*fields),
            fields.len() as nat,
        ) <= usize::MAX,
    ensures
        level_outcome(
            plan_level(
                requested_schema@,
                physical_fields_view(*fields),
                start_parquet_offset as nat,
            ),
            fields_leaf_count(physical_fields_view(*fields), fields.len() as nat),
            res,
            old(mask_indices)@,
            final(mask_indices)@,
        ),
        physical_fields_wf(physical_fields_view(*fields)) ==> (res matches Ok((_, nodes))
            ==> nodes.len() == requested_schema.fields.len() && plan_is_bijection(
            plan_view(nodes),
        )),
    decreases fields, 2nat,
{
    proof {
        if physical_fields_wf(physical_fields_view(*fields)) && plan_level(
            requested_schema@,
            physical_fields_view(*fields),
            start_parquet_offset as nat,
        ) is Ok {
            lemma_level_plan_is_bijection(
                requested_schema@,
                physical_fields_view(*fields),
                start_parquet_offset as nat,
            );
        }
    }
    let ghost wanted = requested_schema@;
    let ghost fs = physical_fields_view(*fields);
    let ghost start = start_parquet_offset as nat;
    let ghost mask_before = old(mask_indices)@;
    let n_wanted = requested_schema.fields.len();
    let mut found_fields: HashSet<usize> = HashSet::new();
    let mut reorder_indices: Vec<ReorderIndex> = Vec::new();
    let mut parquet_offset: usize = start_parquet_offset;
    let mut i: usize = 0;
    while i < fields.len()
        invariant
            i <= fields.len(),
            wanted == requested_schema@,
            wanted.len() == n_wanted,
            n_wanted == requested_schema.fields.len(),
            fs == physical_fields_view(*fields),
            fs.len() == fields.len(),
            start == start_parquet_offset,
            start + fields_leaf_count(fs, fields.len() as nat) <= usize::MAX,
            parquet_offset == start + fields_leaf_count(fs, i as nat),
            forall|j: int|
                0 <= j < n_wanted ==> (found_fields@.contains(j as usize) <==> is_found(
                    wanted,
                    fs.take(i as int),
                    j,
                )),
            plan_prefix(wanted, fs, i as nat, start) matches Ok(acc) && acc.nodes == plan_view(
                reorder_indices,
            ) && indices_view(mask_indices@) == indices_view(mask_before) + acc.mask,
        decreases fields.len() - i,
    {
        let field = &fields[i];
        proof {
            lemma_fields_leaf_count_monotone(fs, (i + 1) as nat, fields.len() as nat);
            lemma_position_of(wanted, field@.name);
        }
        let ghost prefix_before = fs.take(i as int);
        let ghost prefix_after = fs.take(i + 1);
        assert(prefix_after[i as int] == field@);
        match find_field(requested_schema, &field.name) {
            Some(target) => {
                match get_field_indices(
                    target,
                    &requested_schema.fields[target].data_type,
                    field,
                    parquet_offset,
                    mask_indices,
                ) {
                    Ok((advance, node)) => {
                        parquet_offset = parquet_offset + advance;
                        found_fields.insert(target);
                        let ghost nodes_before = plan_view(reorder_indices);
                        reorder_indices.push(node);
                        assert forall|j: int| 0 <= j < n_wanted implies (found_fields@.contains(
                            j as usize,
                        ) <==> is_found(
                            wanted,
                            prefix_after,
                            j,
                        )) by {
                            if is_found(wanted, prefix_before, j) {
                                let t = choose|t: int|
                                    0 <= t < prefix_before.len() && position_of(
                                        wanted,
                                        (#[trigger] prefix_before[t]).name,
                                    ) == Some(j);
                            }
                            if is_found(wanted, prefix_after, j) && j != target {
                                let t = choose|t: int|
                                    0 <= t < prefix_after.len() && position_of(
                                        wanted,
                                        (#[trigger] prefix_after[t]).name,
                                    ) == Some(j);
                            }
                        }
                    },
                    Err(e) => {
                        proof {
                            lemma_prefix_failure(wanted, fs, (i + 1) as nat, start);
                        }
                        return Err(e);
                    },
                }
            },
            None => {
                let skipped = count_cols(field);
                parquet_offset = parquet_offset + skipped;
                assert forall|j: int| 0 <= j < n_wanted implies (found_fields@.contains(
                            j as usize,
                        ) <==> is_found(
                    wanted,
                    prefix_after,
                    j,
                )) by {
                    if is_found(wanted, prefix_before, j) {
                        let t = choose|t: int|
                            0 <= t < prefix_before.len() && position_of(
                                wanted,
                                (#[trigger] prefix_before[t]).name,
                            ) == Some(j);
                    }
                    if is_found(wanted, prefix_after, j) {
                        let t = choose|t: int|
                            0 <= t < prefix_after.len() && position_of(
                                wanted,
                                (#[trigger] prefix_after[t]).name,
                            ) == Some(j);
                    }
                }
            },
        }
        i += 1;
    }
    assert(fs.take(fields.len() as int) =~= fs);
    let ghost walked = plan_prefix(wanted, fs, fields.len() as nat, start)->Ok_0;
    let mut j: usize = 0;
    while j < n_wanted
        invariant
            j <= n_wanted,
            wanted == requested_schema@,
            wanted.len() == n_wanted,
            n_wanted == requested_schema.fields.len(),
            forall|t: int|
                0 <= t < n_wanted ==> (found_fields@.contains(t as usize) <==> is_found(
                    wanted,
                    fs,
                    t,
                )),
            fs == physical_fields_view(*fields),
            fs.len() == fields.len(),
            start == start_parquet_offset,
            plan_prefix(wanted, fs, fs.len(), start) == Ok::<LevelPlan, ErrorView>(walked),
            indices_view(mask_indices@) == indices_view(mask_before) + walked.mask,
            parquet_offset == start_parquet_offset + fields_leaf_count(fs, fs.len()),
            missing_nodes(wanted, fs, j as nat) matches Ok(missing) && plan_view(reorder_indices)
                == walked.nodes + missing,
        decreases n_wanted - j,
    {
        let wanted_field = &requested_schema.fields[j];
        if !found_fields.contains(&j) {
            if wanted_field.nullable {
                let ghost nodes_before = plan_view(reorder_indices);
                let node = ReorderIndex::missing(j, physical_field_of(wanted_field));
                reorder_indices.push(node);
                assert(plan_view(reorder_indices) =~= nodes_before.push(node@));
            } else {
                proof {
                    lemma_missing_failure(wanted, fs, (j + 1) as nat);
                }
                return Err(Error::MissingRequiredColumn(path_of(&wanted_field.name)));
            }
        }
        j += 1;
    }
    Ok((parquet_offset - start_parquet_offset, reorder_indices))
}

/// A failure among the first `n` fields of a level is the failure of the level.
pub proof fn lemma_prefix_failure(
    requested: Seq<LogicalField>,
    fields: Seq<PhysicalField>,
    n: nat,
    start: nat,
)
    requires
        n <= fields.len(),
        plan_prefix(requested, fields, n, start) is Err,
    ensures
        plan_level(requested, fields, start) == Err::<LevelPlan, ErrorView>(
            plan_prefix(requested, fields, n, start)->Err_0,
        ),
    decreases fields.len() - n,
{
    if n < fields.len() {
        lemma_prefix_failure(requested, fields, n + 1, start);
    }
}

/// A failure among the first `m` logical fields is the failure of them all.
pub proof fn lemma_missing_failure(
    requested: Seq<LogicalField>,
    fields: Seq<PhysicalField>,
    m: nat,
)
    requires
        m <= requested.len(),
        missing_nodes(requested, fields, m) is Err,
    ensures
        missing_nodes(requested, fields, requested.len()) == missing_nodes(requested, fields, m),
    decreases requested.len() - m,
{
    if m < requested.len() {
        lemma_missing_failure(requested, fields, m + 1);
    }
}

/// What the planner gives for a logical schema and the schema of a file: the plan of the top
/// level, which starts at the leaf index 0; a failure where the file has more leaf columns
/// than a machine integer counts.
pub open spec fn plan_schema(requested: Seq<LogicalField>, fields: Seq<PhysicalField>) -> Result<
    LevelPlan,
    ErrorView,
> {
    if fields_leaf_count(fields, fields.len()) > usize::MAX {
        Err(ErrorView::InternalError(Fault::TooManyLeaves))
    } else {
        plan_level(requested, fields, 0)
    }
}

/// Plans the read of a file: which leaf columns of `parquet_schema` to decode, in the order
/// of the file, and the plan that reshapes the decoded columns into `requested_schema`.
///
/// Fails, and returns no part of a plan, where a type of the file cannot be read as the type
/// asked for, where a variant is shredded or a map malformed, and where a field that may not
/// be NULL is absent from the file.
pub fn get_requested_indices(requested_schema: &StructType, parquet_schema: &Vec<ArrowField>) -> (res:
    Result<(Vec<usize>, Vec<ReorderIndex>), Error>)
    ensures
        match plan_schema(requested_schema@, physical_fields_view(*parquet_schema)) {
            Ok(plan) => res matches Ok((mask_indices, reorder_indices)) && indices_view(
                mask_indices@,
            ) == plan.mask && plan_view(reorder_indices) == plan.nodes,
            Err(e) => res matches Err(err) && err@ == e,
        },
        res matches Ok((mask_indices, _)) ==> ascending_within(
            indices_view(mask_indices@),
            0,
            fields_leaf_count(physical_fields_view(*parquet_schema), parquet_schema.len() as nat),
        ),
        physical_fields_wf(physical_fields_view(*parquet_schema)) ==> (res matches Ok((_, nodes))
            ==> nodes.len() == requested_schema.fields.len() && plan_is_bijection(
            plan_view(nodes),
        )),
{
    proof {
        if plan_schema(requested_schema@, physical_fields_view(*parquet_schema)) is Ok {
            lemma_plan_mask_ascends(requested_schema@, physical_fields_view(*parquet_schema));
        }
    }
    if checked_count_fields(parquet_schema).is_none() {
        return Err(Error::InternalError(Fault::TooManyLeaves));
    }
    let mut mask_indices: Vec<usize> = Vec::new();
    match get_indices(0, requested_schema, parquet_schema, &mut mask_indices) {
        Ok((_, reorder_indices)) => {
            Ok((mask_indices, reorder_indices))
        },
        Err(e) => Err(e),
    }
}

} // verus!
