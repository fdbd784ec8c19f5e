//! The plan and the reorderer together: a batch decoded by a plan and reshaped by it has the
//! fields that were asked for, in the order in which they were asked for.

use crate::arrow_calls::is_cast_target;
use crate::column::{
    column_laid_open, column_wf, struct_laid_open, struct_list_free, struct_wf, ColumnView,
    StructView,
};
use crate::error::{ErrorView, Fault};
use crate::physical::{physical_fields_wf, physical_type_wf, PhysicalField, PhysicalType};
use crate::plan::{
    is_bijection, is_target, level_needs_transform, node_needs_transform, PlanNode, Transform,
};
use crate::planner::{
    fields_leaf_count, leaf_count, missing_nodes, plan_field, plan_level, plan_list, plan_prefix,
    struct_fields,
};
use crate::planner_laws::{lemma_level_plan_is_bijection, lemma_missing_plan_is_injection};
use crate::reorder::{reorder_struct, shape_node};
use crate::reorder_laws::{fails_at, lemma_reorder_fails_at_a_node, lemma_reorder_places_each_node};
use crate::schema::{lemma_position_of, position_of, LogicalField, LogicalType};
use crate::widening::{field_image, fields_image, logical_image};
use vstd::prelude::*;

verus! {

/// The physical fields among the first `n` of a level that the logical level names, in the
/// order of the file: the columns that are decoded for the level.
pub open spec fn decoded_fields(
    requested: Seq<LogicalField>,
    fields: Seq<PhysicalField>,
    n: nat,
) -> Seq<PhysicalField>
    decreases n,
{
    if n == 0 || n > fields.len() {
        seq![]
    } else {
        let before = decoded_fields(requested, fields, (n - 1) as nat);
        if position_of(requested, fields[n - 1].name) is Some {
            before.push(fields[n - 1])
        } else {
            before
        }
    }
}

/// The node of a physical field has the target that was asked for, and makes no column of
/// NULLs.
pub proof fn lemma_field_plan_consumes(
    requested: LogicalType,
    index: nat,
    field: PhysicalField,
    leaf: nat,
)
    requires
        plan_field(requested, index, field, leaf) is Ok,
    ensures
        plan_field(requested, index, field, leaf)->Ok_0.node.index == index,
        !(plan_field(requested, index, field, leaf)->Ok_0.node.transform is Missing),
    decreases field, 0nat,
{
    match field.data_type {
        PhysicalType::List(f) => {
            lemma_list_plan_consumes(requested, index, field, *f, leaf);
        },
        PhysicalType::LargeList(f) => {
            lemma_list_plan_consumes(requested, index, field, *f, leaf);
        },
        PhysicalType::ListView(f) => {
            lemma_list_plan_consumes(requested, index, field, *f, leaf);
        },
        _ => {},
    }
}

/// The node of a list has the target that was asked for, and makes no column of NULLs.
pub proof fn lemma_list_plan_consumes(
    requested: LogicalType,
    index: nat,
    field: PhysicalField,
    element: PhysicalField,
    leaf: nat,
)
    requires
        plan_list(requested, index, field, element, leaf) is Ok,
    ensures
        plan_list(requested, index, field, element, leaf)->Ok_0.node.index == index,
        !(plan_list(requested, index, field, element, leaf)->Ok_0.node.transform is Missing),
    decreases element, 1nat,
{
    let wanted = requested->Array_0;
    lemma_field_plan_consumes(*wanted, index, element, leaf);
}

/// The nodes of the first `n` physical fields stand for the decoded fields, one for one and
/// in order: the target of each is the logical field that has the name of its decoded
/// field.
pub proof fn lemma_prefix_nodes_follow_decoded(
    requested: Seq<LogicalField>,
    fields: Seq<PhysicalField>,
    n: nat,
    start: nat,
)
    requires
        n <= fields.len(),
        plan_prefix(requested, fields, n, start) is Ok,
    ensures
        plan_prefix(requested, fields, n, start)->Ok_0.nodes.len() == decoded_fields(
            requested,
            fields,
            n,
        ).len(),
        forall|k: int|
            0 <= k < decoded_fields(requested, fields, n).len() ==> {
                let node = #[trigger] plan_prefix(requested, fields, n, start)->Ok_0.nodes[k];
                &&& !(node.transform is Missing)
                &&& node.index < requested.len()
                &&& requested[node.index as int].name == decoded_fields(requested, fields, n)[k].name
            },
    decreases n,
{
    if n > 0 {
        lemma_prefix_nodes_follow_decoded(requested, fields, (n - 1) as nat, start);
        let field = fields[n - 1];
        lemma_position_of(requested, field.name);
        match position_of(requested, field.name) {
            None => {},
            Some(target) => {
                lemma_field_plan_consumes(
                    requested[target].data_type,
                    target as nat,
                    field,
                    start + fields_leaf_count(fields, (n - 1) as nat),
                );
                let nodes = plan_prefix(requested, fields, n, start)->Ok_0.nodes;
                let decoded = decoded_fields(requested, fields, n);
                assert forall|k: int| 0 <= k < decoded.len() implies {
                    let node = #[trigger] nodes[k];
                    &&& !(node.transform is Missing)
                    &&& node.index < requested.len()
                    &&& requested[node.index as int].name == decoded[k].name
                } by {}
            },
        }
    }
}

/// What a node places keeps the name of the field that it speaks of: the name of the decoded
/// column at its position, or the name of the missing field.
pub proof fn lemma_shape_node_keeps_name(input: StructView, node: PlanNode, position: nat)
    requires
        shape_node(input, node, position) is Ok,
    ensures
        node.transform matches Transform::Missing(field) ==> shape_node(
            input,
            node,
            position,
        )->Ok_0.field.name == field.name,
        !(node.transform is Missing) ==> position < input.fields.len() && shape_node(
            input,
            node,
            position,
        )->Ok_0.field.name == input.fields[position as int].name,
{
}

/// Targets that ascend strictly and are a bijection are the positions themselves.
pub proof fn lemma_ascending_bijection_is_identity(nodes: Seq<PlanNode>, k: int)
    requires
        is_bijection(nodes),
        forall|i: int| 0 <= i < nodes.len() - 1 ==> (#[trigger] nodes[i]).index < nodes[i + 1].index,
        0 <= k < nodes.len(),
    ensures
        nodes[k].index == k,
{
    lemma_ascending_from(nodes, k);
    lemma_ascending_to(nodes, k);
}

/// An ascending target is at least its position.
proof fn lemma_ascending_from(nodes: Seq<PlanNode>, k: int)
    requires
        forall|i: int| 0 <= i < nodes.len() - 1 ==> (#[trigger] nodes[i]).index < nodes[i + 1].index,
        0 <= k < nodes.len(),
    ensures
        nodes[k].index >= k,
    decreases k,
{
    if k > 0 {
        lemma_ascending_from(nodes, k - 1);
    }
}

/// An ascending target in range is at most its position.
proof fn lemma_ascending_to(nodes: Seq<PlanNode>, k: int)
    requires
        forall|i: int| 0 <= i < nodes.len() ==> (#[trigger] nodes[i]).index < nodes.len(),
        forall|i: int| 0 <= i < nodes.len() - 1 ==> (#[trigger] nodes[i]).index < nodes[i + 1].index,
        0 <= k < nodes.len(),
    ensures
        nodes[k].index <= k,
    decreases nodes.len() - k,
{
    if k < nodes.len() - 1 {
        lemma_ascending_to(nodes, k + 1);
    }
}

/// The round trip. A file whose levels name no field twice is planned against a logical
/// level; a batch holds, at this level, one column for each physical field that the plan
/// decodes, under the name of that field; the batch is reshaped by the plan. Then the
/// reshaped batch has, at this level, exactly the logical fields by name, in their order.
///
/// The nodes of a nested struct are the plan of that struct's level, so the same holds of
/// every level below.
pub proof fn lemma_reshaped_names_are_logical(
    requested: Seq<LogicalField>,
    fields: Seq<PhysicalField>,
    start: nat,
    input: StructView,
)
    requires
        physical_fields_wf(fields),
        plan_level(requested, fields, start) is Ok,
        input.fields.len() == decoded_fields(requested, fields, fields.len()).len(),
        forall|k: int|
            0 <= k < input.fields.len() ==> (#[trigger] input.fields[k]).name == decoded_fields(
                requested,
                fields,
                fields.len(),
            )[k].name,
        reorder_struct(input, plan_level(requested, fields, start)->Ok_0.nodes) is Ok,
    ensures
        reorder_struct(input, plan_level(requested, fields, start)->Ok_0.nodes)->Ok_0.fields.len()
            == requested.len(),
        forall|j: int|
            0 <= j < requested.len() ==> (#[trigger] reorder_struct(
                input,
                plan_level(requested, fields, start)->Ok_0.nodes,
            )->Ok_0.fields[j]).name == requested[j].name,
{
    let nodes = plan_level(requested, fields, start)->Ok_0.nodes;
    let walked = plan_prefix(requested, fields, fields.len(), start)->Ok_0.nodes;
    let missing = missing_nodes(requested, fields, requested.len())->Ok_0;
    let out = reorder_struct(input, nodes)->Ok_0;
    lemma_level_plan_is_bijection(requested, fields, start);
    lemma_prefix_nodes_follow_decoded(requested, fields, fields.len(), start);
    lemma_missing_plan_is_injection(requested, fields, requested.len());
    if level_needs_transform(nodes) {
        lemma_reorder_places_each_node(input, nodes, 0);
        assert forall|j: int| 0 <= j < requested.len() implies (#[trigger] out.fields[j]).name
            == requested[j].name by {
            assert(is_target(nodes, j));
            let k = choose|k: int| 0 <= k < nodes.len() && (#[trigger] nodes[k]).index == j;
            lemma_reorder_places_each_node(input, nodes, k);
            lemma_shape_node_keeps_name(input, nodes[k], k as nat);
            if k >= walked.len() {
                lemma_missing_node_names(requested, fields, requested.len(), k - walked.len());
            }
        }
    } else {
        assert forall|k: int| 0 <= k < nodes.len() implies !((#[trigger] nodes[k]).transform is Missing) by {}
        assert forall|j: int| 0 <= j < requested.len() implies (#[trigger] out.fields[j]).name
            == requested[j].name by {
            lemma_ascending_bijection_is_identity(nodes, j);
        }
    }
}

/// The node of a missing field makes a column for the logical field at its target, under
/// that field's name.
pub proof fn lemma_missing_node_names(
    requested: Seq<LogicalField>,
    fields: Seq<PhysicalField>,
    m: nat,
    k: int,
)
    requires
        m <= requested.len(),
        missing_nodes(requested, fields, m) is Ok,
        0 <= k < missing_nodes(requested, fields, m)->Ok_0.len(),
    ensures
        missing_nodes(requested, fields, m)->Ok_0[k].index < m,
        missing_nodes(requested, fields, m)->Ok_0[k].transform == Transform::Missing(
            field_image(requested[missing_nodes(requested, fields, m)->Ok_0[k].index as int]),
        ),
    decreases m,
{
    if m > 0 {
        let before = missing_nodes(requested, fields, (m - 1) as nat)->Ok_0;
        if k < before.len() {
            lemma_missing_node_names(requested, fields, (m - 1) as nat, k);
        }
    }
}

/// What is decoded of a physical type that is read as the logical type `l`: the type
/// itself, with each struct in it cut down to the fields that the logical type names.
pub open spec fn read_type(l: LogicalType, p: PhysicalType) -> PhysicalType
    decreases p, 0nat,
{
    match p {
        PhysicalType::Struct(pfs) => match struct_fields(l) {
            Some(lfs) => PhysicalType::Struct(read_fields(lfs, pfs, pfs.len())),
            None => p,
        },
        PhysicalType::List(f) => match l {
            LogicalType::Array(e, _) => PhysicalType::List(Box::new(read_field(*e, *f))),
            _ => p,
        },
        PhysicalType::LargeList(f) => match l {
            LogicalType::Array(e, _) => PhysicalType::LargeList(Box::new(read_field(*e, *f))),
            _ => p,
        },
        PhysicalType::ListView(f) => match l {
            LogicalType::Array(e, _) => PhysicalType::ListView(Box::new(read_field(*e, *f))),
            _ => p,
        },
        PhysicalType::MapOf(entries, sorted) => match (entries.data_type, l) {
            (PhysicalType::Struct(kv), LogicalType::MapOf(k, v, _)) => if kv.len() == 2 {
                PhysicalType::MapOf(
                    Box::new(
                        PhysicalField {
                            name: entries.name,
                            data_type: PhysicalType::Struct(
                                seq![read_field(*k, kv[0]), read_field(*v, kv[1])],
                            ),
                            nullable: entries.nullable,
                            metadata: entries.metadata,
                        },
                    ),
                    sorted,
                )
            } else {
                p
            },
            _ => p,
        },
        _ => p,
    }
}

/// What is decoded of a physical field that is read as the logical type `l`.
pub open spec fn read_field(l: LogicalType, f: PhysicalField) -> PhysicalField
    decreases f, 1nat,
{
    PhysicalField {
        name: f.name,
        data_type: read_type(l, f.data_type),
        nullable: f.nullable,
        metadata: f.metadata,
    }
}

/// What is decoded of the first `n` fields of a physical level: the fields that the logical
/// level names, in the order of the file, each cut down to what is read of it.
pub open spec fn read_fields(
    requested: Seq<LogicalField>,
    fields: Seq<PhysicalField>,
    n: nat,
) -> Seq<PhysicalField>
    decreases fields, n,
{
    if n == 0 || n > fields.len() {
        seq![]
    } else {
        let before = read_fields(requested, fields, (n - 1) as nat);
        match position_of(requested, fields[n - 1].name) {
            Some(target) => before.push(read_field(requested[target].data_type, fields[n - 1])),
            None => before,
        }
    }
}

/// Whether the names in a physical type are those of the logical type `l`, level by level:
/// a struct has the logical fields by name and in order, a list has elements that follow,
/// a map has a key and a value that follow.
pub open spec fn type_names_follow(p: PhysicalType, l: LogicalType) -> bool
    decreases l, 0nat,
{
    match l {
        LogicalType::Primitive(_) => true,
        LogicalType::Struct(lfs) => p matches PhysicalType::Struct(pfs) && names_follow(pfs, lfs),
        LogicalType::Variant(lfs) => p matches PhysicalType::Struct(pfs) && names_follow(pfs, lfs),
        LogicalType::Array(e, _) => match p {
            PhysicalType::List(f) => type_names_follow(f.data_type, *e),
            PhysicalType::LargeList(f) => type_names_follow(f.data_type, *e),
            PhysicalType::ListView(f) => type_names_follow(f.data_type, *e),
            _ => false,
        },
        LogicalType::MapOf(k, v, _) => p matches PhysicalType::MapOf(entries, _)
            && entries.data_type matches PhysicalType::Struct(kv) && kv.len() == 2
            && type_names_follow(kv[0].data_type, *k) && type_names_follow(kv[1].data_type, *v),
    }
}

/// Whether the fields of a physical level are the logical fields by name and in order, and
/// so on below: the tree of field names of the one is that of the other.
pub open spec fn names_follow(pfs: Seq<PhysicalField>, lfs: Seq<LogicalField>) -> bool
    decreases lfs, 1nat,
{
    &&& pfs.len() == lfs.len()
    &&& forall|j: int|
        0 <= j < lfs.len() ==> (#[trigger] pfs[j]).name == lfs[j].name && type_names_follow(
            pfs[j].data_type,
            lfs[j].data_type,
        )
}

/// The type that a logical type is stored as has the names of the logical type.
pub proof fn lemma_image_follows(l: LogicalType)
    ensures
        type_names_follow(logical_image(l), l),
    decreases l, 0nat,
{
    match l {
        LogicalType::Primitive(_) => {},
        LogicalType::Struct(lfs) => {
            lemma_fields_image_follows(lfs);
        },
        LogicalType::Variant(lfs) => {
            lemma_fields_image_follows(lfs);
        },
        LogicalType::Array(e, _) => {
            lemma_image_follows(*e);
        },
        LogicalType::MapOf(k, v, _) => {
            lemma_image_follows(*k);
            lemma_image_follows(*v);
        },
    }
}

/// The fields that a logical level is stored as have the names of the logical level.
pub proof fn lemma_fields_image_follows(lfs: Seq<LogicalField>)
    ensures
        names_follow(fields_image(lfs), lfs),
    decreases lfs, 1nat,
{
    assert forall|j: int| 0 <= j < lfs.len() implies (#[trigger] fields_image(lfs)[j]).name
        == lfs[j].name && type_names_follow(fields_image(lfs)[j].data_type, lfs[j].data_type) by {
        lemma_image_follows(lfs[j].data_type);
    }
}

/// Where the node of a field asks for no work, what is decoded of the field has the names
/// of the logical type.
pub proof fn lemma_untransformed_field_follows(
    l: LogicalType,
    index: nat,
    field: PhysicalField,
    leaf: nat,
)
    requires
        physical_type_wf(field.data_type),
        plan_field(l, index, field, leaf) is Ok,
        !node_needs_transform(plan_field(l, index, field, leaf)->Ok_0.node),
    ensures
        type_names_follow(read_type(l, field.data_type), l),
    decreases field, 0nat,
{
    match field.data_type {
        PhysicalType::Struct(pfs) => {
            let lfs = struct_fields(l)->Some_0;
            lemma_untransformed_level_follows(lfs, pfs, leaf);
        },
        PhysicalType::List(f) => {
            lemma_untransformed_list_follows(l, index, field, *f, leaf);
        },
        PhysicalType::LargeList(f) => {
            lemma_untransformed_list_follows(l, index, field, *f, leaf);
        },
        PhysicalType::ListView(f) => {
            lemma_untransformed_list_follows(l, index, field, *f, leaf);
        },
        PhysicalType::MapOf(entries, _) => {
            let kv = entries.data_type->Struct_0;
            let k = l->MapOf_0;
            let v = l->MapOf_1;
            assert(physical_fields_wf(kv)) by {
                reveal_with_fuel(physical_type_wf, 3);
            }
            let mid = leaf + leaf_count(kv[0].data_type);
            lemma_untransformed_field_follows(*k, 0, kv[0], leaf);
            lemma_untransformed_field_follows(*v, 1, kv[1], mid);
        },
        _ => {},
    }
}

/// Where the node of a list asks for no work, what is decoded of its elements has the names
/// of the logical element type.
pub proof fn lemma_untransformed_list_follows(
    l: LogicalType,
    index: nat,
    field: PhysicalField,
    element: PhysicalField,
    leaf: nat,
)
    requires
        physical_type_wf(element.data_type),
        plan_list(l, index, field, element, leaf) is Ok,
        !node_needs_transform(plan_list(l, index, field, element, leaf)->Ok_0.node),
    ensures
        l is Array,
        type_names_follow(read_type(*l->Array_0, element.data_type), *l->Array_0),
    decreases element, 1nat,
{
    let wanted = l->Array_0;
    lemma_untransformed_field_follows(*wanted, index, element, leaf);
}

/// The nodes of the first `n` physical fields stand for what is decoded of those fields,
/// one for one and in order; where a node asks for no work, what is decoded has the names
/// of the logical field at the node's target.
pub proof fn lemma_untransformed_prefix_follows(
    requested: Seq<LogicalField>,
    fields: Seq<PhysicalField>,
    n: nat,
    start: nat,
)
    requires
        physical_fields_wf(fields),
        n <= fields.len(),
        plan_prefix(requested, fields, n, start) is Ok,
    ensures
        plan_prefix(requested, fields, n, start)->Ok_0.nodes.len() == read_fields(
            requested,
            fields,
            n,
        ).len(),
        forall|k: int|
            0 <= k < read_fields(requested, fields, n).len() ==> {
                let node = #[trigger] plan_prefix(requested, fields, n, start)->Ok_0.nodes[k];
                let read = read_fields(requested, fields, n)[k];
                &&& !(node.transform is Missing)
                &&& node.index < requested.len()
                &&& requested[node.index as int].name == read.name
                &&& !node_needs_transform(node) ==> type_names_follow(
                    read.data_type,
                    requested[node.index as int].data_type,
                )
            },
    decreases fields, n,
{
    if n > 0 {
        lemma_untransformed_prefix_follows(requested, fields, (n - 1) as nat, start);
        let field = fields[n - 1];
        lemma_position_of(requested, field.name);
        match position_of(requested, field.name) {
            None => {},
            Some(target) => {
                let leaf = start + fields_leaf_count(fields, (n - 1) as nat);
                let l = requested[target].data_type;
                lemma_field_plan_consumes(l, target as nat, field, leaf);
                let node = plan_field(l, target as nat, field, leaf)->Ok_0.node;
                if !node_needs_transform(node) {
                    lemma_untransformed_field_follows(l, target as nat, field, leaf);
                }
                let nodes = plan_prefix(requested, fields, n, start)->Ok_0.nodes;
                let reads = read_fields(requested, fields, n);
                let reads_before = read_fields(requested, fields, (n - 1) as nat);
                assert(reads == reads_before.push(read_field(l, field)));
                assert forall|k: int| 0 <= k < reads.len() implies {
                    let node = #[trigger] nodes[k];
                    let read = reads[k];
                    &&& !(node.transform is Missing)
                    &&& node.index < requested.len()
                    &&& requested[node.index as int].name == read.name
                    &&& !node_needs_transform(node) ==> type_names_follow(
                        read.data_type,
                        requested[node.index as int].data_type,
                    )
                } by {}
            },
        }
    }
}

/// Where the plan of a level asks for no work, what is decoded of the level has the tree of
/// field names of the logical level.
pub proof fn lemma_untransformed_level_follows(
    requested: Seq<LogicalField>,
    fields: Seq<PhysicalField>,
    start: nat,
)
    requires
        physical_fields_wf(fields),
        plan_level(requested, fields, start) is Ok,
        !level_needs_transform(plan_level(requested, fields, start)->Ok_0.nodes),
    ensures
        names_follow(read_fields(requested, fields, fields.len()), requested),
    decreases fields, fields.len() + 1,
{
    let nodes = plan_level(requested, fields, start)->Ok_0.nodes;
    let walked = plan_prefix(requested, fields, fields.len(), start)->Ok_0.nodes;
    let missing = missing_nodes(requested, fields, requested.len())->Ok_0;
    let reads = read_fields(requested, fields, fields.len());
    lemma_level_plan_is_bijection(requested, fields, start);
    lemma_untransformed_prefix_follows(requested, fields, fields.len(), start);
    lemma_missing_plan_is_injection(requested, fields, requested.len());
    assert forall|k: int| 0 <= k < nodes.len() implies !node_needs_transform(
        #[trigger] nodes[k],
    ) by {}
    if missing.len() > 0 {
        assert(nodes[walked.len() as int] == missing[0]);
    }
    assert forall|j: int| 0 <= j < requested.len() implies (#[trigger] reads[j]).name
        == requested[j].name && type_names_follow(reads[j].data_type, requested[j].data_type) by {
        lemma_ascending_bijection_is_identity(nodes, j);
    }
}

/// What the node of a physical field places, for a column that holds what was decoded of
/// the field, is a field whose type has the names of the logical type.
pub proof fn lemma_node_follows(
    l: LogicalType,
    index: nat,
    field: PhysicalField,
    leaf: nat,
    input: StructView,
    position: nat,
)
    requires
        physical_type_wf(field.data_type),
        plan_field(l, index, field, leaf) is Ok,
        struct_wf(input),
        struct_laid_open(input),
        position < input.fields.len(),
        input.fields[position as int].data_type == read_type(l, field.data_type),
        shape_node(input, plan_field(l, index, field, leaf)->Ok_0.node, position) is Ok,
    ensures
        type_names_follow(
            shape_node(input, plan_field(l, index, field, leaf)->Ok_0.node, position)->Ok_0.field.data_type,
            l,
        ),
    decreases field, 4nat,
{
    let node = plan_field(l, index, field, leaf)->Ok_0.node;
    let column = input.columns[position as int];
    lemma_field_plan_consumes(l, index, field, leaf);
    match node.transform {
        Transform::Identity => {
            lemma_untransformed_field_follows(l, index, field, leaf);
        },
        Transform::Missing(_) => {},
        Transform::Cast(target) => {
            lemma_cast_node_is_primitive(l, index, field, leaf);
        },
        Transform::Nested(children) => {
            match column {
                ColumnView::Leaf { .. } => {},
                ColumnView::Struct(s) => {
                    lemma_struct_node_follows(l, index, field, leaf, s, children);
                },
                ColumnView::List { field: element, large, offsets, values, nulls } => {
                    let s = values->Struct_0;
                    assert(column_wf(*values) && column_laid_open(*values));
                    lemma_list_node_follows(l, index, field, leaf, element, large, s, children);
                },
                ColumnView::MapOf { field: entries_field, entry_offsets, entries, nulls, ordered } => {
                    lemma_map_node_follows(
                        l,
                        index,
                        field,
                        leaf,
                        entries_field,
                        ordered,
                        entries,
                        children,
                    );
                },
            }
        },
    }
}

/// A node that casts is the node of a primitive logical type.
pub proof fn lemma_cast_node_is_primitive(l: LogicalType, index: nat, field: PhysicalField, leaf: nat)
    requires
        plan_field(l, index, field, leaf) is Ok,
        plan_field(l, index, field, leaf)->Ok_0.node.transform is Cast,
    ensures
        l is Primitive || (l is Array && (field.data_type is List || field.data_type is LargeList
            || field.data_type is ListView)),
    decreases field, 0nat,
{
    match field.data_type {
        PhysicalType::List(f) => {
            assert(plan_list(l, index, field, *f, leaf) == plan_field(l, index, field, leaf));
        },
        PhysicalType::LargeList(f) => {
            assert(plan_list(l, index, field, *f, leaf) == plan_field(l, index, field, leaf));
        },
        PhysicalType::ListView(f) => {
            assert(plan_list(l, index, field, *f, leaf) == plan_field(l, index, field, leaf));
        },
        _ => {},
    }
}

/// The node of a struct, applied to a struct column that holds what was decoded.
pub proof fn lemma_struct_node_follows(
    l: LogicalType,
    index: nat,
    field: PhysicalField,
    leaf: nat,
    s: StructView,
    children: Seq<PlanNode>,
)
    requires
        physical_type_wf(field.data_type),
        plan_field(l, index, field, leaf) is Ok,
        plan_field(l, index, field, leaf)->Ok_0.node.transform == Transform::Nested(children),
        struct_wf(s),
        struct_laid_open(s),
        read_type(l, field.data_type) == PhysicalType::Struct(s.fields),
        reorder_struct(s, children) is Ok,
    ensures
        type_names_follow(PhysicalType::Struct(reorder_struct(s, children)->Ok_0.fields), l),
    decreases field, 1nat,
{
    lemma_struct_type_is_read(l, field.data_type, s.fields);
    let pfs = field.data_type->Struct_0;
    let lfs = struct_fields(l)->Some_0;
    lemma_level_follows(lfs, pfs, leaf, s);
}

/// The node of a list of structs, applied to a list column that holds what was decoded.
pub proof fn lemma_list_node_follows(
    l: LogicalType,
    index: nat,
    field: PhysicalField,
    leaf: nat,
    element: PhysicalField,
    large: bool,
    s: StructView,
    children: Seq<PlanNode>,
)
    requires
        physical_type_wf(field.data_type),
        plan_field(l, index, field, leaf) is Ok,
        plan_field(l, index, field, leaf)->Ok_0.node.transform == Transform::Nested(children),
        struct_wf(s),
        struct_laid_open(s),
        read_type(l, field.data_type) == (if large {
            PhysicalType::LargeList(Box::new(element))
        } else {
            PhysicalType::List(Box::new(element))
        }),
        element.data_type == PhysicalType::Struct(s.fields),
        reorder_struct(s, children) is Ok,
    ensures
        l is Array,
        type_names_follow(
            PhysicalType::Struct(reorder_struct(s, children)->Ok_0.fields),
            *l->Array_0,
        ),
    decreases field, 2nat,
{
    let f = match field.data_type {
        PhysicalType::List(f) => *f,
        PhysicalType::LargeList(f) => *f,
        _ => arbitrary(),
    };
    let e = *l->Array_0;
    assert(plan_list(l, index, field, f, leaf) == plan_field(l, index, field, leaf));
    lemma_struct_node_follows(e, index, f, leaf, s, children);
}

/// The node of a map, applied to a map column that holds what was decoded.
pub proof fn lemma_map_node_follows(
    l: LogicalType,
    index: nat,
    field: PhysicalField,
    leaf: nat,
    entries_field: PhysicalField,
    ordered: bool,
    s: StructView,
    children: Seq<PlanNode>,
)
    requires
        physical_type_wf(field.data_type),
        plan_field(l, index, field, leaf) is Ok,
        plan_field(l, index, field, leaf)->Ok_0.node.transform == Transform::Nested(children),
        struct_wf(s),
        struct_laid_open(s),
        read_type(l, field.data_type) == PhysicalType::MapOf(Box::new(entries_field), ordered),
        entries_field.data_type == PhysicalType::Struct(s.fields),
        reorder_struct(s, children) is Ok,
    ensures
        l is MapOf,
        reorder_struct(s, children)->Ok_0.fields.len() == 2,
        type_names_follow(reorder_struct(s, children)->Ok_0.fields[0].data_type, *l->MapOf_0),
        type_names_follow(reorder_struct(s, children)->Ok_0.fields[1].data_type, *l->MapOf_1),
    decreases field, 3nat,
{
    let entries = *field.data_type->MapOf_0;
    let kv = entries.data_type->Struct_0;
    let k = *l->MapOf_0;
    let v = *l->MapOf_1;
    assert(physical_fields_wf(kv)) by {
        reveal_with_fuel(physical_type_wf, 3);
    }
    let mid = leaf + leaf_count(kv[0].data_type);
    let key = plan_field(k, 0, kv[0], leaf)->Ok_0.node;
    let value = plan_field(v, 1, kv[1], mid)->Ok_0.node;
    lemma_field_plan_consumes(k, 0, kv[0], leaf);
    lemma_field_plan_consumes(v, 1, kv[1], mid);
    lemma_reorder_places_each_node(s, children, 0);
    lemma_reorder_places_each_node(s, children, 1);
    if node_needs_transform(key) {
        lemma_node_follows(k, 0, kv[0], leaf, s, 0);
    } else {
        lemma_untransformed_field_follows(k, 0, kv[0], leaf);
    }
    if node_needs_transform(value) {
        lemma_node_follows(v, 1, kv[1], mid, s, 1);
    } else {
        lemma_untransformed_field_follows(v, 1, kv[1], mid);
    }
}

/// A struct type that is what is decoded of a physical type is what is decoded of a
/// physical struct that is read as a logical struct.
pub proof fn lemma_struct_type_is_read(l: LogicalType, p: PhysicalType, fields: Seq<PhysicalField>)
    requires
        read_type(l, p) == PhysicalType::Struct(fields),
    ensures
        p is Struct,
        struct_fields(l) is Some ==> fields == read_fields(
            struct_fields(l)->Some_0,
            p->Struct_0,
            p->Struct_0.len(),
        ),
{
}

/// What the nodes of the first `n` physical fields place, for a batch that holds what was
/// decoded of those fields, are fields whose types have the names of the logical fields at
/// their targets.
pub proof fn lemma_prefix_follows(
    requested: Seq<LogicalField>,
    fields: Seq<PhysicalField>,
    n: nat,
    start: nat,
    input: StructView,
)
    requires
        physical_fields_wf(fields),
        n <= fields.len(),
        plan_prefix(requested, fields, n, start) is Ok,
        struct_wf(input),
        struct_laid_open(input),
        read_fields(requested, fields, n).len() <= input.fields.len(),
        forall|k: int|
            0 <= k < read_fields(requested, fields, n).len() ==> (#[trigger] input.fields[k])
                == read_fields(requested, fields, n)[k],
    ensures
        plan_prefix(requested, fields, n, start)->Ok_0.nodes.len() == read_fields(
            requested,
            fields,
            n,
        ).len(),
        forall|k: int|
            0 <= k < read_fields(requested, fields, n).len() ==> {
                let node = #[trigger] plan_prefix(requested, fields, n, start)->Ok_0.nodes[k];
                &&& node.index < requested.len()
                &&& shape_node(input, node, k as nat) is Ok ==> type_names_follow(
                    shape_node(input, node, k as nat)->Ok_0.field.data_type,
                    requested[node.index as int].data_type,
                )
            },
    decreases fields, n,
{
    lemma_untransformed_prefix_follows(requested, fields, n, start);
    if n > 0 {
        let field = fields[n - 1];
        let reads = read_fields(requested, fields, n);
        let reads_before = read_fields(requested, fields, (n - 1) as nat);
        lemma_position_of(requested, field.name);
        match position_of(requested, field.name) {
            None => {
                lemma_prefix_follows(requested, fields, (n - 1) as nat, start, input);
            },
            Some(target) => {
                let leaf = start + fields_leaf_count(fields, (n - 1) as nat);
                let l = requested[target].data_type;
                assert(reads == reads_before.push(read_field(l, field)));
                assert forall|k: int| 0 <= k < reads_before.len() implies (
                #[trigger] input.fields[k]) == reads_before[k] by {}
                lemma_prefix_follows(requested, fields, (n - 1) as nat, start, input);
                let before = plan_prefix(requested, fields, (n - 1) as nat, start)->Ok_0.nodes;
                let nodes = plan_prefix(requested, fields, n, start)->Ok_0.nodes;
                let node = plan_field(l, target as nat, field, leaf)->Ok_0.node;
                let position = before.len();
                lemma_field_plan_consumes(l, target as nat, field, leaf);
                if shape_node(input, node, position) is Ok {
                    lemma_node_follows(l, target as nat, field, leaf, input, position);
                }
                assert forall|k: int| 0 <= k < reads.len() implies {
                    let node = #[trigger] nodes[k];
                    &&& node.index < requested.len()
                    &&& shape_node(input, node, k as nat) is Ok ==> type_names_follow(
                        shape_node(input, node, k as nat)->Ok_0.field.data_type,
                        requested[node.index as int].data_type,
                    )
                } by {}
            },
        }
    }
}

/// The round trip, tree and all. A file whose levels name no field twice is planned against
/// a logical level; a well-formed batch, laid open, holds what was decoded of the level;
/// the batch is reshaped by the plan. Then the reshaped batch has the tree of field names
/// of the logical level: at every level the logical fields by name, in their order.
pub proof fn lemma_level_follows(
    requested: Seq<LogicalField>,
    fields: Seq<PhysicalField>,
    start: nat,
    input: StructView,
)
    requires
        physical_fields_wf(fields),
        plan_level(requested, fields, start) is Ok,
        struct_wf(input),
        struct_laid_open(input),
        input.fields == read_fields(requested, fields, fields.len()),
        reorder_struct(input, plan_level(requested, fields, start)->Ok_0.nodes) is Ok,
    ensures
        names_follow(
            reorder_struct(input, plan_level(requested, fields, start)->Ok_0.nodes)->Ok_0.fields,
            requested,
        ),
    decreases fields, fields.len() + 1,
{
    let nodes = plan_level(requested, fields, start)->Ok_0.nodes;
    let walked = plan_prefix(requested, fields, fields.len(), start)->Ok_0.nodes;
    let out = reorder_struct(input, nodes)->Ok_0;
    if !level_needs_transform(nodes) {
        lemma_untransformed_level_follows(requested, fields, start);
    } else {
        lemma_level_plan_is_bijection(requested, fields, start);
        lemma_prefix_follows(requested, fields, fields.len(), start, input);
        lemma_untransformed_prefix_follows(requested, fields, fields.len(), start);
        lemma_missing_plan_is_injection(requested, fields, requested.len());
        lemma_reorder_places_each_node(input, nodes, 0);
        assert forall|j: int| 0 <= j < requested.len() implies (#[trigger] out.fields[j]).name
            == requested[j].name && type_names_follow(
            out.fields[j].data_type,
            requested[j].data_type,
        ) by {
            assert(is_target(nodes, j));
            let k = choose|k: int| 0 <= k < nodes.len() && (#[trigger] nodes[k]).index == j;
            lemma_reorder_places_each_node(input, nodes, k);
            lemma_shape_node_keeps_name(input, nodes[k], k as nat);
            if k >= walked.len() {
                lemma_missing_node_names(requested, fields, requested.len(), k - walked.len());
                lemma_image_follows(requested[j].data_type);
            }
        }
    }
}

/// The failures that reshaping by a plan of the planner can end in, for a batch that holds
/// what was decoded: a cast that arrow refuses, a cast that is asked of the elements of a
/// list, and a list whose elements are to be reshaped and are no structs.
pub open spec fn planned_failure(e: ErrorView) -> bool {
    ||| e is Arrow
    ||| e == ErrorView::InternalError(Fault::CastOfNested)
    ||| e == ErrorView::InternalError(Fault::ListWithoutStruct)
}

/// Whether `e` is a failure that reshaping the batch `input` by its plan can end in: one of
/// the three above, and, where the batch holds no list, a cast that arrow refuses.
pub open spec fn fails_as_planned(e: ErrorView, input: StructView) -> bool {
    planned_failure(e) && (struct_list_free(input) ==> e is Arrow)
}

/// A cast that the node of a field asks for leads to a type that a widening leads to.
pub proof fn lemma_field_cast_is_widening(l: LogicalType, index: nat, field: PhysicalField, leaf: nat)
    requires
        plan_field(l, index, field, leaf) is Ok,
        plan_field(l, index, field, leaf)->Ok_0.node.transform is Cast,
    ensures
        is_cast_target(plan_field(l, index, field, leaf)->Ok_0.node.transform->Cast_0),
    decreases field, 0nat,
{
    match field.data_type {
        PhysicalType::List(f) => {
            lemma_list_cast_is_widening(l, index, field, *f, leaf);
        },
        PhysicalType::LargeList(f) => {
            lemma_list_cast_is_widening(l, index, field, *f, leaf);
        },
        PhysicalType::ListView(f) => {
            lemma_list_cast_is_widening(l, index, field, *f, leaf);
        },
        _ => {},
    }
}

/// A cast that the node of a list asks for leads to a type that a widening leads to.
pub proof fn lemma_list_cast_is_widening(
    l: LogicalType,
    index: nat,
    field: PhysicalField,
    element: PhysicalField,
    leaf: nat,
)
    requires
        plan_list(l, index, field, element, leaf) is Ok,
        plan_list(l, index, field, element, leaf)->Ok_0.node.transform is Cast,
    ensures
        is_cast_target(plan_list(l, index, field, element, leaf)->Ok_0.node.transform->Cast_0),
    decreases element, 1nat,
{
    let wanted = l->Array_0;
    lemma_field_cast_is_widening(*wanted, index, element, leaf);
}

/// What the node of a physical field fails with, for a column that holds what was decoded
/// of the field, is one of the failures that a plan can end in.
pub proof fn lemma_node_fails_as_planned(
    l: LogicalType,
    index: nat,
    field: PhysicalField,
    leaf: nat,
    input: StructView,
    position: nat,
)
    requires
        physical_type_wf(field.data_type),
        plan_field(l, index, field, leaf) is Ok,
        struct_wf(input),
        struct_laid_open(input),
        position < input.fields.len(),
        input.fields[position as int].data_type == read_type(l, field.data_type),
    ensures
        shape_node(input, plan_field(l, index, field, leaf)->Ok_0.node, position) matches Err(e)
            ==> fails_as_planned(e, input),
    decreases field, 4nat,
{
    let node = plan_field(l, index, field, leaf)->Ok_0.node;
    let column = input.columns[position as int];
    lemma_field_plan_consumes(l, index, field, leaf);
    match node.transform {
        Transform::Identity => {},
        Transform::Missing(_) => {},
        Transform::Cast(target) => {
            lemma_field_cast_is_widening(l, index, field, leaf);
            lemma_cast_node_is_primitive(l, index, field, leaf);
        },
        Transform::Nested(children) => {
            match column {
                ColumnView::Leaf { .. } => {
                    lemma_nested_node_is_nested(l, index, field, leaf);
                },
                ColumnView::Struct(s) => {
                    lemma_struct_node_fails_as_planned(l, index, field, leaf, s, children);
                },
                ColumnView::List { field: element, large, offsets, values, nulls } => {
                    if *values is Struct {
                        let s = values->Struct_0;
                        assert(column_wf(*values) && column_laid_open(*values));
                        lemma_list_node_fails_as_planned(
                            l,
                            index,
                            field,
                            leaf,
                            element,
                            large,
                            s,
                            children,
                        );
                    }
                },
                ColumnView::MapOf { field: entries_field, entry_offsets, entries, nulls, ordered } => {
                    lemma_map_node_fails_as_planned(
                        l,
                        index,
                        field,
                        leaf,
                        entries_field,
                        ordered,
                        entries,
                        children,
                    );
                },
            }
        },
    }
}

/// A node that reshapes below is the node of a struct, a list or a map.
pub proof fn lemma_nested_node_is_nested(l: LogicalType, index: nat, field: PhysicalField, leaf: nat)
    requires
        plan_field(l, index, field, leaf) is Ok,
        plan_field(l, index, field, leaf)->Ok_0.node.transform is Nested,
    ensures
        read_type(l, field.data_type) is Struct || read_type(l, field.data_type) is List
            || read_type(l, field.data_type) is LargeList || read_type(l, field.data_type)
            is ListView || read_type(l, field.data_type) is MapOf,
{
}

/// The node of a struct, applied to a struct column that holds what was decoded, fails as
/// planned.
pub proof fn lemma_struct_node_fails_as_planned(
    l: LogicalType,
    index: nat,
    field: PhysicalField,
    leaf: nat,
    s: StructView,
    children: Seq<PlanNode>,
)
    requires
        physical_type_wf(field.data_type),
        plan_field(l, index, field, leaf) is Ok,
        plan_field(l, index, field, leaf)->Ok_0.node.transform == Transform::Nested(children),
        struct_wf(s),
        struct_laid_open(s),
        read_type(l, field.data_type) == PhysicalType::Struct(s.fields),
    ensures
        reorder_struct(s, children) matches Err(e) ==> fails_as_planned(e, s),
    decreases field, 1nat,
{
    lemma_struct_type_is_read(l, field.data_type, s.fields);
    let pfs = field.data_type->Struct_0;
    let lfs = struct_fields(l)->Some_0;
    lemma_level_fails_as_planned(lfs, pfs, leaf, s);
}

/// The node of a list of structs, applied to a list column that holds what was decoded,
/// fails as planned.
pub proof fn lemma_list_node_fails_as_planned(
    l: LogicalType,
    index: nat,
    field: PhysicalField,
    leaf: nat,
    element: PhysicalField,
    large: bool,
    s: StructView,
    children: Seq<PlanNode>,
)
    requires
        physical_type_wf(field.data_type),
        plan_field(l, index, field, leaf) is Ok,
        plan_field(l, index, field, leaf)->Ok_0.node.transform == Transform::Nested(children),
        struct_wf(s),
        struct_laid_open(s),
        read_type(l, field.data_type) == (if large {
            PhysicalType::LargeList(Box::new(element))
        } else {
            PhysicalType::List(Box::new(element))
        }),
        element.data_type == PhysicalType::Struct(s.fields),
    ensures
        reorder_struct(s, children) matches Err(e) ==> planned_failure(e),
    decreases field, 2nat,
{
    let f = match field.data_type {
        PhysicalType::List(f) => *f,
        PhysicalType::LargeList(f) => *f,
        _ => arbitrary(),
    };
    let e = *l->Array_0;
    assert(plan_list(l, index, field, f, leaf) == plan_field(l, index, field, leaf));
    lemma_struct_node_fails_as_planned(e, index, f, leaf, s, children);
}

/// The node of a map, applied to a map column that holds what was decoded, fails as
/// planned, and where it does not fail the entries are again a key and a value.
pub proof fn lemma_map_node_fails_as_planned(
    l: LogicalType,
    index: nat,
    field: PhysicalField,
    leaf: nat,
    entries_field: PhysicalField,
    ordered: bool,
    s: StructView,
    children: Seq<PlanNode>,
)
    requires
        physical_type_wf(field.data_type),
        plan_field(l, index, field, leaf) is Ok,
        plan_field(l, index, field, leaf)->Ok_0.node.transform == Transform::Nested(children),
        struct_wf(s),
        struct_laid_open(s),
        read_type(l, field.data_type) == PhysicalType::MapOf(Box::new(entries_field), ordered),
        entries_field.data_type == PhysicalType::Struct(s.fields),
    ensures
        reorder_struct(s, children) matches Err(e) ==> fails_as_planned(e, s),
        reorder_struct(s, children) matches Ok(r) ==> r.columns.len() == 2,
    decreases field, 3nat,
{
    let entries = *field.data_type->MapOf_0;
    let kv = entries.data_type->Struct_0;
    let k = *l->MapOf_0;
    let v = *l->MapOf_1;
    assert(physical_fields_wf(kv)) by {
        reveal_with_fuel(physical_type_wf, 3);
    }
    let mid = leaf + leaf_count(kv[0].data_type);
    let key = plan_field(k, 0, kv[0], leaf)->Ok_0.node;
    let value = plan_field(v, 1, kv[1], mid)->Ok_0.node;
    lemma_field_plan_consumes(k, 0, kv[0], leaf);
    lemma_field_plan_consumes(v, 1, kv[1], mid);
    if node_needs_transform(key) {
        lemma_node_fails_as_planned(k, 0, kv[0], leaf, s, 0);
    }
    if node_needs_transform(value) {
        lemma_node_fails_as_planned(v, 1, kv[1], mid, s, 1);
    }
    if reorder_struct(s, children) is Err {
        lemma_reorder_fails_at_a_node(s, children);
        let e = reorder_struct(s, children)->Err_0;
        let at = choose|at: int| #[trigger] fails_at(s, children, at, e);
    } else {
        lemma_reorder_places_each_node(s, children, 0);
    }
}

/// What the nodes of the first `n` physical fields fail with, for a batch that holds what
/// was decoded of those fields, are failures that a plan can end in.
pub proof fn lemma_prefix_fails_as_planned(
    requested: Seq<LogicalField>,
    fields: Seq<PhysicalField>,
    n: nat,
    start: nat,
    input: StructView,
)
    requires
        physical_fields_wf(fields),
        n <= fields.len(),
        plan_prefix(requested, fields, n, start) is Ok,
        struct_wf(input),
        struct_laid_open(input),
        read_fields(requested, fields, n).len() <= input.fields.len(),
        forall|k: int|
            0 <= k < read_fields(requested, fields, n).len() ==> (#[trigger] input.fields[k])
                == read_fields(requested, fields, n)[k],
    ensures
        plan_prefix(requested, fields, n, start)->Ok_0.nodes.len() == read_fields(
            requested,
            fields,
            n,
        ).len(),
        forall|k: int|
            0 <= k < read_fields(requested, fields, n).len() ==> (shape_node(
                input,
                #[trigger] plan_prefix(requested, fields, n, start)->Ok_0.nodes[k],
                k as nat,
            ) matches Err(e) ==> fails_as_planned(e, input)),
    decreases fields, n,
{
    lemma_untransformed_prefix_follows(requested, fields, n, start);
    if n > 0 {
        let field = fields[n - 1];
        let reads = read_fields(requested, fields, n);
        let reads_before = read_fields(requested, fields, (n - 1) as nat);
        lemma_position_of(requested, field.name);
        match position_of(requested, field.name) {
            None => {
                lemma_prefix_fails_as_planned(requested, fields, (n - 1) as nat, start, input);
            },
            Some(target) => {
                let leaf = start + fields_leaf_count(fields, (n - 1) as nat);
                let l = requested[target].data_type;
                assert(reads == reads_before.push(read_field(l, field)));
                assert forall|k: int| 0 <= k < reads_before.len() implies (
                #[trigger] input.fields[k]) == reads_before[k] by {}
                lemma_prefix_fails_as_planned(requested, fields, (n - 1) as nat, start, input);
                let before = plan_prefix(requested, fields, (n - 1) as nat, start)->Ok_0.nodes;
                let nodes = plan_prefix(requested, fields, n, start)->Ok_0.nodes;
                let position = before.len();
                lemma_node_fails_as_planned(l, target as nat, field, leaf, input, position);
                assert forall|k: int| 0 <= k < reads.len() implies (shape_node(
                    input,
                    #[trigger] nodes[k],
                    k as nat,
                ) matches Err(e) ==> fails_as_planned(e, input)) by {}
            },
        }
    }
}

/// Reshaping a decoded batch by its plan fails only through a cast or at a list; where the
/// batch holds no list, it fails only where arrow refuses a cast. A file
/// whose levels name no field twice is planned against a logical level; a well-formed
/// batch, laid open, holds what was decoded of the level. Then reshaping the batch by the
/// plan gives a batch, or fails because arrow refuses a cast, because a cast is asked of the
/// elements of a list, or because the elements of a list that are to be reshaped are no
/// structs. The plan and the batch fit each other: no node lacks its column, no target lies
/// beyond the level, and every output position is filled.
pub proof fn lemma_level_fails_as_planned(
    requested: Seq<LogicalField>,
    fields: Seq<PhysicalField>,
    start: nat,
    input: StructView,
)
    requires
        physical_fields_wf(fields),
        plan_level(requested, fields, start) is Ok,
        struct_wf(input),
        struct_laid_open(input),
        input.fields == read_fields(requested, fields, fields.len()),
    ensures
        reorder_struct(input, plan_level(requested, fields, start)->Ok_0.nodes) matches Err(e)
            ==> fails_as_planned(e, input),
    decreases fields, fields.len() + 1,
{
    let nodes = plan_level(requested, fields, start)->Ok_0.nodes;
    if reorder_struct(input, nodes) is Err {
        lemma_level_plan_is_bijection(requested, fields, start);
        lemma_prefix_fails_as_planned(requested, fields, fields.len(), start, input);
        lemma_missing_plan_is_injection(requested, fields, requested.len());
        lemma_untransformed_prefix_follows(requested, fields, fields.len(), start);
        assert forall|c: int| 0 <= c < input.columns.len() implies !((#[trigger] nodes[c]).transform
            is Missing) by {}
        lemma_reorder_fails_at_a_node(input, nodes);
    }
}

/// The round trip, whole. A file whose levels name no field twice is planned against a
/// logical level; a well-formed batch, laid open, holds what was decoded of the level. Then
/// reshaping the batch by the plan either gives a batch with the tree of field names of the
/// logical level, or fails as a plan can: where the batch holds no list, only because arrow
/// refuses a cast.
pub proof fn lemma_planned_reshaping(
    requested: Seq<LogicalField>,
    fields: Seq<PhysicalField>,
    start: nat,
    input: StructView,
)
    requires
        physical_fields_wf(fields),
        plan_level(requested, fields, start) is Ok,
        struct_wf(input),
        struct_laid_open(input),
        input.fields == read_fields(requested, fields, fields.len()),
    ensures
        match reorder_struct(input, plan_level(requested, fields, start)->Ok_0.nodes) {
            Ok(reshaped) => names_follow(reshaped.fields, requested),
            Err(e) => fails_as_planned(e, input),
        },
{
    if reorder_struct(input, plan_level(requested, fields, start)->Ok_0.nodes) is Ok {
        lemma_level_follows(requested, fields, start, input);
    } else {
        lemma_level_fails_as_planned(requested, fields, start, input);
    }
}

} // verus!
