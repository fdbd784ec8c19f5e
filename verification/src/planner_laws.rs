//! What holds of every plan that the planner gives.

use crate::error::{ErrorKind, ErrorView};
use crate::physical::{physical_fields_wf, physical_type_wf, PhysicalField, PhysicalType};
use crate::plan::{
    below_is_bijection, is_target, level_needs_transform, node_needs_transform, plan_is_bijection,
    PlanNode, Transform,
};
use crate::planner::{
    ascending_within, fields_leaf_count, is_found, is_unshredded_storage, leaf_count, map_node,
    missing_nodes, plan_field, plan_level, plan_list, plan_prefix, struct_fields, FieldPlan,
};
use crate::schema::{
    lemma_position_of, names_unique, position_of, unshredded_variant_fields, LogicalField,
    LogicalType,
};
use crate::widening::{field_image, leaf_compat, primitive_image};
use vstd::prelude::*;

verus! {

/// Whether the file stores the logical type `l` as exactly the physical type `p`: a primitive
/// as the type it is stored as, a struct with the same fields in the same order, a list of
/// the same elements, a map of the same keys and values.
pub open spec fn same_type(l: LogicalType, p: PhysicalType) -> bool
    decreases l,
{
    match l {
        LogicalType::Primitive(pt) => p == primitive_image(pt),
        LogicalType::Struct(fs) => p matches PhysicalType::Struct(pfs) && same_fields(fs, pfs),
        LogicalType::Variant(fs) => p matches PhysicalType::Struct(pfs) && same_fields(fs, pfs),
        LogicalType::Array(element, _) => match p {
            PhysicalType::List(f) => same_type(*element, f.data_type),
            PhysicalType::LargeList(f) => same_type(*element, f.data_type),
            PhysicalType::ListView(f) => same_type(*element, f.data_type),
            _ => false,
        },
        LogicalType::MapOf(k, v, _) => p matches PhysicalType::MapOf(entries, _)
            && entries.data_type matches PhysicalType::Struct(kv) && kv.len() == 2 && same_type(
            *k,
            kv[0].data_type,
        ) && same_type(*v, kv[1].data_type),
    }
}

/// Whether the file stores the logical level `fs` as exactly the physical level `pfs`: the
/// same names in the same order, no name twice, each field stored as its own type.
pub open spec fn same_fields(fs: Seq<LogicalField>, pfs: Seq<PhysicalField>) -> bool
    decreases fs,
{
    &&& fs.len() == pfs.len()
    &&& names_unique(fs)
    &&& forall|i: int|
        0 <= i < fs.len() ==> (#[trigger] fs[i]).name == pfs[i].name && same_type(
            fs[i].data_type,
            pfs[i].data_type,
        )
}

/// The leaf indices from `start` on, `count` of them.
pub open spec fn leaf_range(start: nat, count: nat) -> Seq<nat> {
    Seq::new(count, |i: int| (start + i) as nat)
}

/// Where the file stores a logical field as exactly its type, the field's node asks for no
/// work, and the leaves to decode for it are all of its leaves, in order.
pub proof fn lemma_same_type_plans_identity(l: LogicalType, index: nat, p: PhysicalField, leaf: nat)
    requires
        same_type(l, p.data_type),
    ensures
        plan_field(l, index, p, leaf) matches Ok(plan) && plan.node.index == index
            && !node_needs_transform(plan.node) && plan.mask == leaf_range(
            leaf,
            leaf_count(p.data_type),
        ),
    decreases l, 0nat,
{
    match l {
        LogicalType::Primitive(pt) => {},
        LogicalType::Struct(fs) => {
            let pfs = p.data_type->Struct_0;
            lemma_same_fields_plan_identity(fs, pfs, leaf);
        },
        LogicalType::Variant(fs) => {
            let pfs = p.data_type->Struct_0;
            lemma_same_fields_plan_identity(fs, pfs, leaf);
            if l == LogicalType::Variant(unshredded_variant_fields()) {
                assert(same_fields(fs, pfs));
            }
        },
        LogicalType::Array(element, _) => {
            let f = match p.data_type {
                PhysicalType::List(f) => *f,
                PhysicalType::LargeList(f) => *f,
                PhysicalType::ListView(f) => *f,
                _ => arbitrary(),
            };
            lemma_same_type_plans_identity(*element, index, f, leaf);
            assert(plan_list(l, index, p, f, leaf) == plan_field(*element, index, f, leaf));
        },
        LogicalType::MapOf(k, v, _) => {
            let kv = p.data_type->MapOf_0.data_type->Struct_0;
            lemma_same_type_plans_identity(*k, 0, kv[0], leaf);
            lemma_same_type_plans_identity(*v, 1, kv[1], leaf + leaf_count(kv[0].data_type));
            crate::planner::lemma_fields_leaf_count_two(kv);
            assert(leaf_count(p.data_type) == fields_leaf_count(kv, 2)) by {
                reveal_with_fuel(leaf_count, 3);
            }
        },
    }
}

/// Where the file stores the first `n` fields of a logical level as exactly their types, in
/// the same order, each of them gets a node at its own position that asks for no work, and
/// the leaves to decode are all the leaves of those fields, in order.
pub proof fn lemma_same_fields_prefix_identity(
    fs: Seq<LogicalField>,
    pfs: Seq<PhysicalField>,
    n: nat,
    start: nat,
)
    requires
        same_fields(fs, pfs),
        n <= pfs.len(),
    ensures
        plan_prefix(fs, pfs, n, start) matches Ok(acc) && acc.nodes.len() == n && acc.mask
            == leaf_range(start, fields_leaf_count(pfs, n)) && forall|i: int|
            0 <= i < n ==> (#[trigger] acc.nodes[i]).index == i && !node_needs_transform(
                acc.nodes[i],
            ),
    decreases fs, n,
{
    if n > 0 {
        lemma_same_fields_prefix_identity(fs, pfs, (n - 1) as nat, start);
        let field = pfs[n - 1];
        lemma_position_of(fs, field.name);
        let leaf = start + fields_leaf_count(pfs, (n - 1) as nat);
        lemma_same_type_plans_identity(fs[n - 1].data_type, (n - 1) as nat, field, leaf);
    }
}

/// Where the logical schema is the schema of the file, field by field, in the same order and
/// with each type stored as itself, the leaves to decode are all the leaves of the file in
/// their order, and the plan asks for no work.
pub proof fn lemma_same_fields_plan_identity(
    fs: Seq<LogicalField>,
    pfs: Seq<PhysicalField>,
    start: nat,
)
    requires
        same_fields(fs, pfs),
    ensures
        plan_level(fs, pfs, start) matches Ok(plan) && plan.mask == leaf_range(
            start,
            fields_leaf_count(pfs, pfs.len()),
        ) && plan.nodes.len() == fs.len() && !level_needs_transform(plan.nodes),
    decreases fs, fs.len() + 1,
{
    lemma_same_fields_prefix_identity(fs, pfs, pfs.len(), start);
    lemma_all_found_none_missing(fs, pfs, fs.len());
}

/// Where the file stores every field of a logical level, no node is made for a missing
/// field.
pub proof fn lemma_all_found_none_missing(fs: Seq<LogicalField>, pfs: Seq<PhysicalField>, m: nat)
    requires
        same_fields(fs, pfs),
        m <= fs.len(),
    ensures
        missing_nodes(fs, pfs, m) == Ok::<Seq<PlanNode>, ErrorView>(seq![]),
    decreases m,
{
    if m > 0 {
        lemma_all_found_none_missing(fs, pfs, (m - 1) as nat);
        lemma_position_of(fs, pfs[m - 1].name);
    }
}

/// Whether the file stores the logical type `l` as the physical type `p`, perhaps among
/// fields that are not asked for: a primitive as the type it is stored as, a struct as a
/// struct that holds its fields in their order, a list of its elements, a map of its keys and
/// values, a variant as exactly its own struct.
pub open spec fn stored_type(l: LogicalType, p: PhysicalType) -> bool
    decreases l, 0nat,
{
    match l {
        LogicalType::Primitive(pt) => p == primitive_image(pt),
        LogicalType::Struct(fs) => p matches PhysicalType::Struct(pfs) && names_unique(fs)
            && stored_fields(fs, fs.len(), pfs, pfs.len()),
        LogicalType::Variant(fs) => same_type(l, p),
        LogicalType::Array(element, _) => match p {
            PhysicalType::List(f) => stored_type(*element, f.data_type),
            PhysicalType::LargeList(f) => stored_type(*element, f.data_type),
            PhysicalType::ListView(f) => stored_type(*element, f.data_type),
            _ => false,
        },
        LogicalType::MapOf(k, v, _) => p matches PhysicalType::MapOf(entries, _)
            && entries.data_type matches PhysicalType::Struct(kv) && kv.len() == 2 && stored_type(
            *k,
            kv[0].data_type,
        ) && stored_type(*v, kv[1].data_type),
    }
}

/// Whether the first `n` fields of the physical level `pfs` hold the first `m` fields of the
/// logical level `fs` in their order, each stored as its own type, and besides them only
/// fields whose names the logical level does not have.
pub open spec fn stored_fields(
    fs: Seq<LogicalField>,
    m: nat,
    pfs: Seq<PhysicalField>,
    n: nat,
) -> bool
    decreases fs, n,
{
    if n == 0 || n > pfs.len() || m > fs.len() {
        m == 0 && n == 0
    } else if m > 0 && fs[m - 1].name == pfs[n - 1].name {
        stored_type(fs[m - 1].data_type, pfs[n - 1].data_type) && stored_fields(
            fs,
            (m - 1) as nat,
            pfs,
            (n - 1) as nat,
        )
    } else {
        (forall|j: int| 0 <= j < fs.len() ==> (#[trigger] fs[j]).name != pfs[n - 1].name)
            && stored_fields(fs, m, pfs, (n - 1) as nat)
    }
}

/// The leaves of a range ascend.
pub proof fn lemma_leaf_range_ascends(start: nat, count: nat)
    ensures
        ascending_within(leaf_range(start, count), start, start + count),
{
}

/// Two ascending runs of leaf indices, one after the other, ascend.
pub proof fn lemma_ascending_concat(first: Seq<nat>, second: Seq<nat>, lo: nat, mid: nat, hi: nat)
    requires
        lo <= mid <= hi,
        ascending_within(first, lo, mid),
        ascending_within(second, mid, hi),
    ensures
        ascending_within(first + second, lo, hi),
{
    let both = first + second;
    assert forall|a: int| 0 <= a < both.len() implies lo <= #[trigger] both[a] < hi by {}
    assert forall|a: int, b: int| 0 <= a < b < both.len() implies #[trigger] both[a]
        < #[trigger] both[b] by {}
}

/// Where the file stores a logical field as its type, perhaps among fields that are not
/// asked for, the field's node asks for no work and the leaves to decode for it ascend
/// within the leaves of the field.
pub proof fn lemma_stored_type_plans_in_order(
    l: LogicalType,
    index: nat,
    p: PhysicalField,
    leaf: nat,
)
    requires
        stored_type(l, p.data_type),
    ensures
        plan_field(l, index, p, leaf) matches Ok(plan) && plan.node.index == index
            && !node_needs_transform(plan.node) && ascending_within(
            plan.mask,
            leaf,
            leaf + leaf_count(p.data_type),
        ),
    decreases l, 1nat,
{
    match l {
        LogicalType::Primitive(pt) => {
            lemma_same_type_plans_identity(l, index, p, leaf);
            lemma_leaf_range_ascends(leaf, leaf_count(p.data_type));
        },
        LogicalType::Variant(fs) => {
            lemma_same_type_plans_identity(l, index, p, leaf);
            lemma_leaf_range_ascends(leaf, leaf_count(p.data_type));
        },
        LogicalType::Struct(fs) => {
            let pfs = p.data_type->Struct_0;
            lemma_stored_fields_plan_in_order(fs, pfs, leaf);
        },
        LogicalType::Array(element, _) => {
            let f = match p.data_type {
                PhysicalType::List(f) => *f,
                PhysicalType::LargeList(f) => *f,
                PhysicalType::ListView(f) => *f,
                _ => arbitrary(),
            };
            lemma_stored_type_plans_in_order(*element, index, f, leaf);
            assert(plan_list(l, index, p, f, leaf) == plan_field(*element, index, f, leaf));
        },
        LogicalType::MapOf(k, v, _) => {
            let kv = p.data_type->MapOf_0.data_type->Struct_0;
            let mid = leaf + leaf_count(kv[0].data_type);
            lemma_stored_type_plans_in_order(*k, 0, kv[0], leaf);
            lemma_stored_type_plans_in_order(*v, 1, kv[1], mid);
            crate::planner::lemma_fields_leaf_count_two(kv);
            let key = plan_field(*k, 0, kv[0], leaf)->Ok_0;
            let value = plan_field(*v, 1, kv[1], mid)->Ok_0;
            assert(leaf_count(p.data_type) == fields_leaf_count(kv, 2)) by {
                reveal_with_fuel(leaf_count, 3);
            }
            lemma_ascending_concat(
                key.mask,
                value.mask,
                leaf,
                mid,
                leaf + leaf_count(p.data_type),
            );
        },
    }
}

/// Where the first `n` physical fields hold the first `m` logical fields in their order, the
/// plan of those physical fields has a node for each of the `m`, at its own position and
/// without work, and the leaves to decode ascend.
pub proof fn lemma_stored_fields_prefix_in_order(
    fs: Seq<LogicalField>,
    m: nat,
    pfs: Seq<PhysicalField>,
    n: nat,
    start: nat,
)
    requires
        names_unique(fs),
        stored_fields(fs, m, pfs, n),
    ensures
        m <= fs.len(),
        n <= pfs.len(),
        plan_prefix(fs, pfs, n, start) matches Ok(acc) && acc.nodes.len() == m && ascending_within(
            acc.mask,
            start,
            start + fields_leaf_count(pfs, n),
        ) && forall|i: int|
            0 <= i < m ==> (#[trigger] acc.nodes[i]).index == i && !node_needs_transform(
                acc.nodes[i],
            ),
        forall|j: int| 0 <= j < m ==> is_found(fs, pfs.take(n as int), j),
    decreases fs, n,
{
    if 0 < n <= pfs.len() && m <= fs.len() {
        let field = pfs[n - 1];
        let leaf = start + fields_leaf_count(pfs, (n - 1) as nat);
        let seen = pfs.take(n as int);
        let seen_before = pfs.take(n - 1);
        assert(seen[n - 1] == field);
        lemma_position_of(fs, field.name);
        if m > 0 && fs[m - 1].name == field.name {
            lemma_stored_fields_prefix_in_order(fs, (m - 1) as nat, pfs, (n - 1) as nat, start);
            lemma_stored_type_plans_in_order(fs[m - 1].data_type, (m - 1) as nat, field, leaf);
            let acc = plan_prefix(fs, pfs, (n - 1) as nat, start)->Ok_0;
            let p = plan_field(fs[m - 1].data_type, (m - 1) as nat, field, leaf)->Ok_0;
            lemma_ascending_concat(
                acc.mask,
                p.mask,
                start,
                leaf,
                start + fields_leaf_count(pfs, n),
            );
            assert forall|j: int| 0 <= j < m implies is_found(fs, seen, j) by {
                if j < m - 1 {
                    assert(is_found(fs, seen_before, j));
                    let i = choose|i: int|
                        0 <= i < seen_before.len() && position_of(
                            fs,
                            (#[trigger] seen_before[i]).name,
                        ) == Some(j);
                }
            }
        } else {
            lemma_stored_fields_prefix_in_order(fs, m, pfs, (n - 1) as nat, start);
            assert forall|j: int| 0 <= j < m implies is_found(fs, seen, j) by {
                assert(is_found(fs, seen_before, j));
                let i = choose|i: int|
                    0 <= i < seen_before.len() && position_of(
                        fs,
                        (#[trigger] seen_before[i]).name,
                    ) == Some(j);
            }
        }
    }
}

/// Where every field is found, no node is made for a missing field.
pub proof fn lemma_found_none_missing(fs: Seq<LogicalField>, pfs: Seq<PhysicalField>, m: nat)
    requires
        m <= fs.len(),
        forall|j: int| 0 <= j < m ==> is_found(fs, pfs, j),
    ensures
        missing_nodes(fs, pfs, m) == Ok::<Seq<PlanNode>, ErrorView>(seq![]),
    decreases m,
{
    if m > 0 {
        lemma_found_none_missing(fs, pfs, (m - 1) as nat);
    }
}

/// Where the file holds the fields of the logical schema in their order, each stored as its
/// own type, perhaps among fields that are not asked for, the plan asks for no work: each
/// decoded column is placed where it was read. The leaves to decode ascend.
pub proof fn lemma_stored_fields_plan_in_order(
    fs: Seq<LogicalField>,
    pfs: Seq<PhysicalField>,
    start: nat,
)
    requires
        names_unique(fs),
        stored_fields(fs, fs.len(), pfs, pfs.len()),
    ensures
        plan_level(fs, pfs, start) matches Ok(plan) && plan.nodes.len() == fs.len()
            && !level_needs_transform(plan.nodes) && ascending_within(
            plan.mask,
            start,
            start + fields_leaf_count(pfs, pfs.len()),
        ),
    decreases fs, pfs.len() + 1,
{
    lemma_stored_fields_prefix_in_order(fs, fs.len(), pfs, pfs.len(), start);
    assert(pfs.take(pfs.len() as int) =~= pfs);
    lemma_found_none_missing(fs, pfs, fs.len());
}

/// An ascending leaf index is at least as far from the first as its place in the mask.
proof fn lemma_ascending_at_least(mask: Seq<nat>, lo: nat, hi: nat, a: int)
    requires
        ascending_within(mask, lo, hi),
        0 <= a < mask.len(),
    ensures
        mask[a] >= lo + a,
    decreases a,
{
    if a > 0 {
        lemma_ascending_at_least(mask, lo, hi, a - 1);
    }
}

/// An ascending leaf index below `lo + mask.len()` is at most as far from the first as its
/// place in the mask.
proof fn lemma_ascending_at_most(mask: Seq<nat>, lo: nat, a: int)
    requires
        ascending_within(mask, lo, lo + mask.len()),
        0 <= a < mask.len(),
    ensures
        mask[a] <= lo + a,
    decreases mask.len() - a,
{
    if a < mask.len() - 1 {
        lemma_ascending_at_most(mask, lo, a + 1);
    }
}

/// Where the file holds the fields of the logical schema in their order, each stored as its
/// own type, and no leaf that is decoded stands after a leaf that is not, the leaves to
/// decode are the identity range: the first leaves of the level, as many as are decoded.
pub proof fn lemma_stored_fields_mask_is_range(
    fs: Seq<LogicalField>,
    pfs: Seq<PhysicalField>,
    start: nat,
)
    requires
        names_unique(fs),
        stored_fields(fs, fs.len(), pfs, pfs.len()),
        plan_level(fs, pfs, start) matches Ok(plan) ==> forall|a: int|
            0 <= a < plan.mask.len() ==> #[trigger] plan.mask[a] < start + plan.mask.len(),
    ensures
        plan_level(fs, pfs, start) matches Ok(plan) && plan.mask == leaf_range(
            start,
            plan.mask.len(),
        ) && !level_needs_transform(plan.nodes),
{
    lemma_stored_fields_plan_in_order(fs, pfs, start);
    let mask = plan_level(fs, pfs, start)->Ok_0.mask;
    assert forall|a: int| 0 <= a < mask.len() implies mask[a] == start + a by {
        lemma_ascending_at_least(mask, start, start + mask.len(), a);
        lemma_ascending_at_most(mask, start, a);
    }
}

/// The leaves to decode for a field are leaves of that field, in the order of the file.
pub proof fn lemma_field_mask_ascends(requested: LogicalType, index: nat, field: PhysicalField, leaf: nat)
    requires
        plan_field(requested, index, field, leaf) is Ok,
    ensures
        ascending_within(
            plan_field(requested, index, field, leaf)->Ok_0.mask,
            leaf,
            leaf + leaf_count(field.data_type),
        ),
    decreases field, 0nat,
{
    match field.data_type {
        PhysicalType::Struct(fs) => {
            let wanted = struct_fields(requested)->Some_0;
            assert(plan_level(wanted, fs, leaf) is Ok);
            lemma_level_mask_ascends(wanted, fs, fs.len(), leaf);
        },
        PhysicalType::List(f) => {
            lemma_list_mask_ascends(requested, index, field, *f, leaf);
        },
        PhysicalType::LargeList(f) => {
            lemma_list_mask_ascends(requested, index, field, *f, leaf);
        },
        PhysicalType::ListView(f) => {
            lemma_list_mask_ascends(requested, index, field, *f, leaf);
        },
        PhysicalType::MapOf(entries, _) => {
            let kv = entries.data_type->Struct_0;
            let k = requested->MapOf_0;
            let v = requested->MapOf_1;
            let mid = leaf + leaf_count(kv[0].data_type);
            lemma_field_mask_ascends(*k, 0, kv[0], leaf);
            lemma_field_mask_ascends(*v, 1, kv[1], mid);
            crate::planner::lemma_fields_leaf_count_two(kv);
            assert(leaf_count(field.data_type) == fields_leaf_count(kv, 2)) by {
                reveal_with_fuel(leaf_count, 3);
            }
            lemma_ascending_concat(
                plan_field(*k, 0, kv[0], leaf)->Ok_0.mask,
                plan_field(*v, 1, kv[1], mid)->Ok_0.mask,
                leaf,
                mid,
                leaf + leaf_count(field.data_type),
            );
        },
        _ => {},
    }
}

/// The leaves to decode for a list are leaves of its elements, in the order of the file.
pub proof fn lemma_list_mask_ascends(
    requested: LogicalType,
    index: nat,
    field: PhysicalField,
    element: PhysicalField,
    leaf: nat,
)
    requires
        plan_list(requested, index, field, element, leaf) is Ok,
    ensures
        ascending_within(
            plan_list(requested, index, field, element, leaf)->Ok_0.mask,
            leaf,
            leaf + leaf_count(element.data_type),
        ),
    decreases element, 1nat,
{
    let wanted = requested->Array_0;
    lemma_field_mask_ascends(*wanted, index, element, leaf);
}

/// The projection keeps the order of the file: the leaves to decode for the first `n`
/// fields of a level ascend strictly, and each is a leaf of one of those fields.
pub proof fn lemma_level_mask_ascends(
    requested: Seq<LogicalField>,
    fields: Seq<PhysicalField>,
    n: nat,
    start: nat,
)
    requires
        n <= fields.len(),
        plan_prefix(requested, fields, n, start) is Ok,
    ensures
        ascending_within(
            plan_prefix(requested, fields, n, start)->Ok_0.mask,
            start,
            start + fields_leaf_count(fields, n),
        ),
    decreases fields, n,
{
    if n > 0 {
        lemma_level_mask_ascends(requested, fields, (n - 1) as nat, start);
        let field = fields[n - 1];
        let leaf = start + fields_leaf_count(fields, (n - 1) as nat);
        let acc = plan_prefix(requested, fields, (n - 1) as nat, start)->Ok_0;
        match position_of(requested, field.name) {
            None => {},
            Some(target) => {
                lemma_field_mask_ascends(requested[target].data_type, target as nat, field, leaf);
                let p = plan_field(requested[target].data_type, target as nat, field, leaf)->Ok_0;
                lemma_ascending_concat(
                    acc.mask,
                    p.mask,
                    start,
                    leaf,
                    start + fields_leaf_count(fields, n),
                );
            },
        }
    }
}

/// The projection of a plan keeps the order of the file: the leaves to decode ascend
/// strictly, and each is a leaf of the file.
pub proof fn lemma_plan_mask_ascends(requested: Seq<LogicalField>, fields: Seq<PhysicalField>)
    requires
        crate::planner::plan_schema(requested, fields) is Ok,
    ensures
        ascending_within(
            crate::planner::plan_schema(requested, fields)->Ok_0.mask,
            0,
            fields_leaf_count(fields, fields.len()),
        ),
{
    lemma_level_mask_ascends(requested, fields, fields.len(), 0);
}

/// A failure to make the nodes of the missing fields is that of a field that may not be
/// NULL.
pub proof fn lemma_missing_failure_is_required(
    requested: Seq<LogicalField>,
    fields: Seq<PhysicalField>,
    m: nat,
)
    requires
        missing_nodes(requested, fields, m) is Err,
    ensures
        missing_nodes(requested, fields, m)->Err_0 is MissingRequiredColumn,
    decreases m,
{
    if m > 0 && m <= requested.len() {
        if missing_nodes(requested, fields, (m - 1) as nat) is Err {
            lemma_missing_failure_is_required(requested, fields, (m - 1) as nat);
        }
    }
}

/// Among the first `m` logical fields, one that the file lacks gets a node that makes a
/// column of NULLs for it where it may be NULL, and fails the plan where it may not.
pub proof fn lemma_missing_nodes_absent(
    requested: Seq<LogicalField>,
    fields: Seq<PhysicalField>,
    m: nat,
    j: int,
)
    requires
        0 <= j < m <= requested.len(),
        !is_found(requested, fields, j),
    ensures
        !requested[j].nullable ==> missing_nodes(requested, fields, m) is Err,
        missing_nodes(requested, fields, m) matches Ok(nodes) ==> exists|k: int|
            0 <= k < nodes.len() && #[trigger] nodes[k] == (PlanNode {
                index: j as nat,
                transform: Transform::Missing(field_image(requested[j])),
            }),
    decreases m,
{
    if j < m - 1 {
        lemma_missing_nodes_absent(requested, fields, (m - 1) as nat, j);
        if missing_nodes(requested, fields, m) is Ok {
            let nodes = missing_nodes(requested, fields, m)->Ok_0;
            let before = missing_nodes(requested, fields, (m - 1) as nat)->Ok_0;
            let k = choose|k: int|
                0 <= k < before.len() && #[trigger] before[k] == (PlanNode {
                    index: j as nat,
                    transform: Transform::Missing(field_image(requested[j])),
                });
            assert(nodes[k] == before[k]);
        }
    } else {
        if missing_nodes(requested, fields, m) is Ok {
            let nodes = missing_nodes(requested, fields, m)->Ok_0;
            let before = missing_nodes(requested, fields, (m - 1) as nat)->Ok_0;
            assert(nodes[before.len() as int] == (PlanNode {
                index: j as nat,
                transform: Transform::Missing(field_image(requested[j])),
            }));
        }
    }
}

/// A logical field whose name no field of the file has is read from no field of the file.
pub proof fn lemma_absent_is_not_found(
    requested: Seq<LogicalField>,
    fields: Seq<PhysicalField>,
    j: int,
)
    requires
        0 <= j < requested.len(),
        forall|i: int| 0 <= i < fields.len() ==> (#[trigger] fields[i]).name != requested[j].name,
    ensures
        !is_found(requested, fields, j),
{
    if is_found(requested, fields, j) {
        let i = choose|i: int|
            0 <= i < fields.len() && position_of(requested, (#[trigger] fields[i]).name) == Some(j);
        lemma_position_of(requested, fields[i].name);
    }
}

/// A logical field that may be NULL and that the file lacks gets, in every plan, a node at
/// its own target that makes a column of NULLs of the type that the field is stored as.
pub proof fn lemma_absent_nullable_field_is_missing(
    requested: Seq<LogicalField>,
    fields: Seq<PhysicalField>,
    start: nat,
    j: int,
)
    requires
        0 <= j < requested.len(),
        forall|i: int| 0 <= i < fields.len() ==> (#[trigger] fields[i]).name != requested[j].name,
        requested[j].nullable,
        plan_level(requested, fields, start) is Ok,
    ensures
        exists|k: int|
            0 <= k < plan_level(requested, fields, start)->Ok_0.nodes.len() && #[trigger] plan_level(
                requested,
                fields,
                start,
            )->Ok_0.nodes[k] == (PlanNode {
                index: j as nat,
                transform: Transform::Missing(field_image(requested[j])),
            }),
{
    lemma_absent_is_not_found(requested, fields, j);
    lemma_missing_nodes_absent(requested, fields, requested.len(), j);
    let walked = plan_prefix(requested, fields, fields.len(), start)->Ok_0;
    let missing = missing_nodes(requested, fields, requested.len())->Ok_0;
    let k = choose|k: int|
        0 <= k < missing.len() && #[trigger] missing[k] == (PlanNode {
            index: j as nat,
            transform: Transform::Missing(field_image(requested[j])),
        });
    let nodes = plan_level(requested, fields, start)->Ok_0.nodes;
    assert(nodes[walked.nodes.len() + k] == missing[k]);
}

/// A logical field that may not be NULL and that the file lacks fails every plan; where the
/// fields of the file themselves are planned without failure, the failure is a schema
/// mismatch that names a missing required column.
pub proof fn lemma_absent_required_field_fails(
    requested: Seq<LogicalField>,
    fields: Seq<PhysicalField>,
    start: nat,
    j: int,
)
    requires
        0 <= j < requested.len(),
        forall|i: int| 0 <= i < fields.len() ==> (#[trigger] fields[i]).name != requested[j].name,
        !requested[j].nullable,
    ensures
        plan_level(requested, fields, start) is Err,
        plan_prefix(requested, fields, fields.len(), start) is Ok ==> plan_level(
            requested,
            fields,
            start,
        )->Err_0 is MissingRequiredColumn && plan_level(requested, fields, start)->Err_0.kind()
            == ErrorKind::SchemaMismatch,
{
    lemma_absent_is_not_found(requested, fields, j);
    lemma_missing_nodes_absent(requested, fields, requested.len(), j);
    lemma_missing_failure_is_required(requested, fields, requested.len());
}

/// How many of the first `m` logical fields are read from some field of the file.
pub open spec fn count_found(
    requested: Seq<LogicalField>,
    fields: Seq<PhysicalField>,
    m: nat,
) -> nat
    decreases m,
{
    if m == 0 {
        0
    } else {
        count_found(requested, fields, (m - 1) as nat) + if is_found(requested, fields, m - 1) {
            1nat
        } else {
            0nat
        }
    }
}

/// Two files from which the same logical fields are read give the same count.
pub proof fn lemma_count_found_same(
    requested: Seq<LogicalField>,
    before: Seq<PhysicalField>,
    after: Seq<PhysicalField>,
    m: nat,
)
    requires
        forall|j: int|
            0 <= j < m ==> (is_found(requested, after, j) <==> is_found(requested, before, j)),
    ensures
        count_found(requested, after, m) == count_found(requested, before, m),
    decreases m,
{
    if m > 0 {
        lemma_count_found_same(requested, before, after, (m - 1) as nat);
    }
}

/// One more logical field read gives a count of one more.
pub proof fn lemma_count_found_add(
    requested: Seq<LogicalField>,
    before: Seq<PhysicalField>,
    after: Seq<PhysicalField>,
    m: nat,
    target: int,
)
    requires
        0 <= target,
        !is_found(requested, before, target),
        forall|j: int|
            0 <= j < m ==> (is_found(requested, after, j) <==> (is_found(requested, before, j) || j
                == target)),
    ensures
        count_found(requested, after, m) == count_found(requested, before, m) + if target < m {
            1nat
        } else {
            0nat
        },
    decreases m,
{
    if m > 0 {
        lemma_count_found_add(requested, before, after, (m - 1) as nat, target);
    }
}

/// What the nodes of the first `n` fields of a well-formed physical level are: one for each
/// logical field that is read from one of them, each with that field's target, no target
/// twice, and bijections below.
pub open spec fn prefix_is_injection(
    requested: Seq<LogicalField>,
    fields: Seq<PhysicalField>,
    n: nat,
    nodes: Seq<PlanNode>,
) -> bool {
    let seen = fields.take(n as int);
    &&& nodes.len() == count_found(requested, seen, requested.len())
    &&& forall|k: int|
        0 <= k < nodes.len() ==> (#[trigger] nodes[k]).index < requested.len() && is_found(
            requested,
            seen,
            nodes[k].index as int,
        ) && below_is_bijection(nodes[k])
    &&& forall|a: int, b: int|
        0 <= a < nodes.len() && 0 <= b < nodes.len() && a != b ==> (#[trigger] nodes[a]).index != (
        #[trigger] nodes[b]).index
    &&& forall|j: int| is_found(requested, seen, j) ==> #[trigger] is_target(nodes, j)
}

/// What the nodes of the missing fields among the first `m` logical fields are: one for
/// each field that is read from no field of the file, with that field's target, in ascending
/// order.
pub open spec fn missing_is_injection(
    requested: Seq<LogicalField>,
    fields: Seq<PhysicalField>,
    m: nat,
    nodes: Seq<PlanNode>,
) -> bool {
    &&& nodes.len() + count_found(requested, fields, m) == m
    &&& forall|k: int|
        0 <= k < nodes.len() ==> (#[trigger] nodes[k]).index < m && !is_found(
            requested,
            fields,
            nodes[k].index as int,
        ) && nodes[k].transform is Missing
    &&& forall|a: int, b: int|
        0 <= a < b < nodes.len() ==> (#[trigger] nodes[a]).index < (#[trigger] nodes[b]).index
    &&& forall|j: int|
        0 <= j < m && !is_found(requested, fields, j) ==> #[trigger] is_target(nodes, j)
}

/// The node of a field has the target that was asked for, and the levels below it are
/// bijections, where the physical type names no field twice.
pub proof fn lemma_field_plan_is_bijection(
    requested: LogicalType,
    index: nat,
    field: PhysicalField,
    leaf: nat,
)
    requires
        physical_type_wf(field.data_type),
        plan_field(requested, index, field, leaf) is Ok,
    ensures
        plan_field(requested, index, field, leaf)->Ok_0.node.index == index,
        below_is_bijection(plan_field(requested, index, field, leaf)->Ok_0.node),
    decreases field, 0nat,
{
    match field.data_type {
        PhysicalType::Struct(fs) => {
            let wanted = struct_fields(requested)->Some_0;
            lemma_level_plan_is_bijection(wanted, fs, leaf);
        },
        PhysicalType::List(f) => {
            lemma_list_plan_is_bijection(requested, index, field, *f, leaf);
        },
        PhysicalType::LargeList(f) => {
            lemma_list_plan_is_bijection(requested, index, field, *f, leaf);
        },
        PhysicalType::ListView(f) => {
            lemma_list_plan_is_bijection(requested, index, field, *f, leaf);
        },
        PhysicalType::MapOf(entries, _) => {
            let kv = entries.data_type->Struct_0;
            let k = requested->MapOf_0;
            let v = requested->MapOf_1;
            assert(physical_fields_wf(kv)) by {
                reveal_with_fuel(physical_type_wf, 3);
            }
            lemma_field_plan_is_bijection(*k, 0, kv[0], leaf);
            lemma_field_plan_is_bijection(*v, 1, kv[1], leaf + leaf_count(kv[0].data_type));
            let key = plan_field(*k, 0, kv[0], leaf)->Ok_0.node;
            let value = plan_field(*v, 1, kv[1], leaf + leaf_count(kv[0].data_type))->Ok_0.node;
            let node = map_node(index, key, value);
        },
        _ => {},
    }
}

/// The node of a list is that of its elements.
pub proof fn lemma_list_plan_is_bijection(
    requested: LogicalType,
    index: nat,
    field: PhysicalField,
    element: PhysicalField,
    leaf: nat,
)
    requires
        physical_type_wf(element.data_type),
        plan_list(requested, index, field, element, leaf) is Ok,
    ensures
        plan_list(requested, index, field, element, leaf)->Ok_0.node.index == index,
        below_is_bijection(plan_list(requested, index, field, element, leaf)->Ok_0.node),
    decreases element, 1nat,
{
    let wanted = requested->Array_0;
    lemma_field_plan_is_bijection(*wanted, index, element, leaf);
}

/// The nodes of the first `n` fields of a well-formed physical level.
pub proof fn lemma_prefix_plan_is_injection(
    requested: Seq<LogicalField>,
    fields: Seq<PhysicalField>,
    n: nat,
    start: nat,
)
    requires
        physical_fields_wf(fields),
        n <= fields.len(),
        plan_prefix(requested, fields, n, start) is Ok,
    ensures
        prefix_is_injection(requested, fields, n, plan_prefix(requested, fields, n, start)->Ok_0.nodes),
    decreases fields, n,
{
    let nodes = plan_prefix(requested, fields, n, start)->Ok_0.nodes;
    let seen = fields.take(n as int);
    if n == 0 {
        assert forall|j: int| !is_found(requested, seen, j) by {}
        lemma_count_found_none(requested, seen, requested.len());
    } else {
        lemma_prefix_plan_is_injection(requested, fields, (n - 1) as nat, start);
        let before = plan_prefix(requested, fields, (n - 1) as nat, start)->Ok_0.nodes;
        let seen_before = fields.take(n - 1);
        let field = fields[n - 1];
        assert(seen[n - 1] == field);
        lemma_position_of(requested, field.name);
        match position_of(requested, field.name) {
            None => {
                assert forall|j: int| is_found(requested, seen, j) <==> is_found(
                    requested,
                    seen_before,
                    j,
                ) by {
                    if is_found(requested, seen, j) {
                        let i = choose|i: int|
                            0 <= i < seen.len() && position_of(
                                requested,
                                (#[trigger] seen[i]).name,
                            ) == Some(j);
                    }
                    if is_found(requested, seen_before, j) {
                        let i = choose|i: int|
                            0 <= i < seen_before.len() && position_of(
                                requested,
                                (#[trigger] seen_before[i]).name,
                            ) == Some(j);
                    }
                }
                lemma_count_found_same(requested, seen_before, seen, requested.len());
                assert forall|j: int| is_found(requested, seen, j) implies #[trigger] is_target(
                    nodes,
                    j,
                ) by {}
            },
            Some(target) => {
                let leaf = start + fields_leaf_count(fields, (n - 1) as nat);
                lemma_field_plan_is_bijection(
                    requested[target].data_type,
                    target as nat,
                    field,
                    leaf,
                );
                let node = plan_field(requested[target].data_type, target as nat, field, leaf)->Ok_0.node;
                assert(!is_found(requested, seen_before, target)) by {
                    if is_found(requested, seen_before, target) {
                        let i = choose|i: int|
                            0 <= i < seen_before.len() && position_of(
                                requested,
                                (#[trigger] seen_before[i]).name,
                            ) == Some(target);
                        lemma_position_of(requested, seen_before[i].name);
                    }
                }
                assert forall|j: int| is_found(requested, seen, j) <==> (is_found(
                    requested,
                    seen_before,
                    j,
                ) || j == target) by {
                    if is_found(requested, seen, j) {
                        let i = choose|i: int|
                            0 <= i < seen.len() && position_of(
                                requested,
                                (#[trigger] seen[i]).name,
                            ) == Some(j);
                    }
                    if is_found(requested, seen_before, j) {
                        let i = choose|i: int|
                            0 <= i < seen_before.len() && position_of(
                                requested,
                                (#[trigger] seen_before[i]).name,
                            ) == Some(j);
                    }
                }
                lemma_count_found_add(requested, seen_before, seen, requested.len(), target);
                assert forall|k: int| 0 <= k < nodes.len() implies (#[trigger] nodes[k]).index
                    < requested.len() && is_found(requested, seen, nodes[k].index as int)
                    && below_is_bijection(nodes[k]) by {}
                assert forall|a: int, b: int|
                    0 <= a < nodes.len() && 0 <= b < nodes.len() && a != b implies (
                #[trigger] nodes[a]).index != (#[trigger] nodes[b]).index by {}
                assert forall|j: int| is_found(requested, seen, j) implies #[trigger] is_target(
                    nodes,
                    j,
                ) by {
                    if j == target {
                        assert(nodes[before.len() as int].index == j);
                    } else {
                        assert(is_target(before, j));
                        let k = choose|k: int|
                            0 <= k < before.len() && (#[trigger] before[k]).index == j;
                        assert(nodes[k] == before[k]);
                    }
                }
            },
        }
    }
}

/// Where no logical field is read from the file, the count is zero.
pub proof fn lemma_count_found_none(
    requested: Seq<LogicalField>,
    fields: Seq<PhysicalField>,
    m: nat,
)
    requires
        forall|j: int| !is_found(requested, fields, j),
    ensures
        count_found(requested, fields, m) == 0,
    decreases m,
{
    if m > 0 {
        lemma_count_found_none(requested, fields, (m - 1) as nat);
    }
}

/// The nodes of the missing fields among the first `m` logical fields.
pub proof fn lemma_missing_plan_is_injection(
    requested: Seq<LogicalField>,
    fields: Seq<PhysicalField>,
    m: nat,
)
    requires
        m <= requested.len(),
        missing_nodes(requested, fields, m) is Ok,
    ensures
        missing_is_injection(requested, fields, m, missing_nodes(requested, fields, m)->Ok_0),
    decreases m,
{
    let nodes = missing_nodes(requested, fields, m)->Ok_0;
    if m > 0 {
        lemma_missing_plan_is_injection(requested, fields, (m - 1) as nat);
        let before = missing_nodes(requested, fields, (m - 1) as nat)->Ok_0;
        if is_found(requested, fields, m - 1) {
            assert forall|j: int|
                0 <= j < m && !is_found(requested, fields, j) implies #[trigger] is_target(
                nodes,
                j,
            ) by {}
        } else {
            assert forall|k: int| 0 <= k < nodes.len() implies (#[trigger] nodes[k]).index < m
                && !is_found(requested, fields, nodes[k].index as int)
                && nodes[k].transform is Missing by {}
            assert forall|a: int, b: int| 0 <= a < b < nodes.len() implies (
            #[trigger] nodes[a]).index < (#[trigger] nodes[b]).index by {}
            assert forall|j: int|
                0 <= j < m && !is_found(requested, fields, j) implies #[trigger] is_target(
                nodes,
                j,
            ) by {
                if j == m - 1 {
                    assert(nodes[before.len() as int].index == j);
                } else {
                    assert(is_target(before, j));
                    let k = choose|k: int|
                        0 <= k < before.len() && (#[trigger] before[k]).index == j;
                    assert(nodes[k] == before[k]);
                }
            }
        }
    }
}

/// The plan is a bijection: where the file names no field twice at any level, a plan has as
/// many nodes at a level as the logical level has fields, each node has the target of
/// exactly one logical field and each logical field is the target of exactly one node, at
/// the top level and at every level below.
pub proof fn lemma_level_plan_is_bijection(
    requested: Seq<LogicalField>,
    fields: Seq<PhysicalField>,
    start: nat,
)
    requires
        physical_fields_wf(fields),
        plan_level(requested, fields, start) is Ok,
    ensures
        plan_level(requested, fields, start)->Ok_0.nodes.len() == requested.len(),
        plan_is_bijection(plan_level(requested, fields, start)->Ok_0.nodes),
    decreases fields, fields.len() + 1,
{
    let nodes = plan_level(requested, fields, start)->Ok_0.nodes;
    let walked = plan_prefix(requested, fields, fields.len(), start)->Ok_0.nodes;
    let missing = missing_nodes(requested, fields, requested.len())->Ok_0;
    lemma_prefix_plan_is_injection(requested, fields, fields.len(), start);
    lemma_missing_plan_is_injection(requested, fields, requested.len());
    assert(fields.take(fields.len() as int) =~= fields);
    assert forall|k: int| 0 <= k < nodes.len() implies (#[trigger] nodes[k]).index < nodes.len()
        && below_is_bijection(nodes[k]) by {}
    assert forall|a: int, b: int|
        0 <= a < nodes.len() && 0 <= b < nodes.len() && a != b implies (#[trigger] nodes[a]).index
        != (#[trigger] nodes[b]).index by {}
    assert forall|j: int| 0 <= j < nodes.len() implies #[trigger] is_target(nodes, j) by {
        if is_found(requested, fields, j) {
            assert(is_target(walked, j));
            let k = choose|k: int| 0 <= k < walked.len() && (#[trigger] walked[k]).index == j;
            assert(nodes[k] == walked[k]);
        } else {
            assert(is_target(missing, j));
            let k = choose|k: int| 0 <= k < missing.len() && (#[trigger] missing[k]).index == j;
            assert(nodes[walked.len() + k] == missing[k]);
        }
    }
}

/// A failure seen from one level up is of the same family.
pub proof fn lemma_within_keeps_kind(e: ErrorView, name: Seq<char>)
    ensures
        e.within(name).kind() == e.kind(),
{
}

/// A map whose entries are not a struct of exactly two fields is not read: the plan of the
/// field fails with an unsupported representation that names the field.
pub proof fn lemma_malformed_map_is_unsupported(
    requested: LogicalType,
    index: nat,
    field: PhysicalField,
    leaf: nat,
)
    requires
        requested is MapOf,
        field.data_type matches PhysicalType::MapOf(entries, _) && !(entries.data_type
            matches PhysicalType::Struct(kv) && kv.len() == 2),
    ensures
        plan_field(requested, index, field, leaf) == Err::<FieldPlan, ErrorView>(
            ErrorView::MalformedMapShape(seq![field.name]),
        ),
        plan_field(requested, index, field, leaf)->Err_0.kind()
            == ErrorKind::UnsupportedRepresentation,
{
}

/// A variant that the file does not store as a struct of exactly `metadata` and `value` is
/// not read: the plan of the field fails with an unsupported representation that names the
/// field.
pub proof fn lemma_shredded_variant_is_unsupported(index: nat, field: PhysicalField, leaf: nat)
    requires
        !is_unshredded_storage(field.data_type),
    ensures
        plan_field(LogicalType::Variant(unshredded_variant_fields()), index, field, leaf) == Err::<
            FieldPlan,
            ErrorView,
        >(ErrorView::UnsupportedVariantShredding(seq![field.name])),
        plan_field(
            LogicalType::Variant(unshredded_variant_fields()),
            index,
            field,
            leaf,
        )->Err_0.kind() == ErrorKind::UnsupportedRepresentation,
{
}

/// Whether the check of a variant's storage lets the field through: the logical type is no
/// whole variant, or the file stores it whole.
pub open spec fn variant_storage_ok(requested: LogicalType, field: PhysicalField) -> bool {
    requested != LogicalType::Variant(unshredded_variant_fields()) || is_unshredded_storage(
        field.data_type,
    )
}

/// A failure at a level below a struct is a failure of the struct, of the same family.
pub proof fn lemma_failure_in_struct_fails_field(
    requested: LogicalType,
    index: nat,
    field: PhysicalField,
    leaf: nat,
)
    requires
        variant_storage_ok(requested, field),
        field.data_type is Struct,
        struct_fields(requested) is Some,
        plan_level(struct_fields(requested)->Some_0, field.data_type->Struct_0, leaf) is Err,
    ensures
        plan_field(requested, index, field, leaf) is Err,
        plan_field(requested, index, field, leaf)->Err_0.kind() == plan_level(
            struct_fields(requested)->Some_0,
            field.data_type->Struct_0,
            leaf,
        )->Err_0.kind(),
{
}

/// A failure at the elements of a list is a failure of the list, of the same family.
pub proof fn lemma_failure_in_list_fails_field(
    requested: LogicalType,
    index: nat,
    field: PhysicalField,
    leaf: nat,
)
    requires
        variant_storage_ok(requested, field),
        field.data_type is List,
        requested is Array,
        plan_field(*requested->Array_0, index, *field.data_type->List_0, leaf) is Err,
    ensures
        plan_field(requested, index, field, leaf) is Err,
        plan_field(requested, index, field, leaf)->Err_0.kind() == plan_field(
            *requested->Array_0,
            index,
            *field.data_type->List_0,
            leaf,
        )->Err_0.kind(),
{
    let element = *field.data_type->List_0;
    assert(plan_field(requested, index, field, leaf) == plan_list(
        requested,
        index,
        field,
        element,
        leaf,
    ));
}

/// A failure at the value of a map is a failure of the map, of the same family.
pub proof fn lemma_failure_in_map_value_fails_field(
    requested: LogicalType,
    index: nat,
    field: PhysicalField,
    leaf: nat,
)
    requires
        requested is MapOf,
        field.data_type is MapOf,
        field.data_type->MapOf_0.data_type is Struct,
        field.data_type->MapOf_0.data_type->Struct_0.len() == 2,
        plan_field(*requested->MapOf_0, 0, field.data_type->MapOf_0.data_type->Struct_0[0], leaf)
            is Ok,
        plan_field(
            *requested->MapOf_1,
            1,
            field.data_type->MapOf_0.data_type->Struct_0[1],
            leaf + leaf_count(field.data_type->MapOf_0.data_type->Struct_0[0].data_type),
        ) is Err,
    ensures
        plan_field(requested, index, field, leaf) is Err,
        plan_field(requested, index, field, leaf)->Err_0.kind() == plan_field(
            *requested->MapOf_1,
            1,
            field.data_type->MapOf_0.data_type->Struct_0[1],
            leaf + leaf_count(field.data_type->MapOf_0.data_type->Struct_0[0].data_type),
        )->Err_0.kind(),
{
}

/// A failure at a field of a level, after fields that are planned without failure, is the
/// failure of the level.
pub proof fn lemma_field_failure_fails_level(
    requested: Seq<LogicalField>,
    fields: Seq<PhysicalField>,
    start: nat,
    i: int,
)
    requires
        0 <= i < fields.len(),
        plan_prefix(requested, fields, i as nat, start) is Ok,
        position_of(requested, fields[i].name) matches Some(target) && plan_field(
            requested[target].data_type,
            target as nat,
            fields[i],
            start + fields_leaf_count(fields, i as nat),
        ) is Err,
    ensures
        plan_level(requested, fields, start) is Err,
        plan_level(requested, fields, start)->Err_0 == plan_field(
            requested[position_of(requested, fields[i].name)->Some_0].data_type,
            position_of(requested, fields[i].name)->Some_0 as nat,
            fields[i],
            start + fields_leaf_count(fields, i as nat),
        )->Err_0,
{
    crate::planner::lemma_prefix_failure(requested, fields, (i + 1) as nat, start);
}

/// A variant that the file stores whole, as a struct of the two binary fields `metadata`
/// and `value`, is read, in whichever order the file holds the two.
pub proof fn lemma_whole_variant_is_read(index: nat, field: PhysicalField, leaf: nat)
    requires
        field.data_type is Struct,
        field.data_type->Struct_0.len() == 2,
        field.data_type->Struct_0[0].data_type == PhysicalType::Binary,
        field.data_type->Struct_0[1].data_type == PhysicalType::Binary,
        (field.data_type->Struct_0[0].name == "metadata"@ && field.data_type->Struct_0[1].name
            == "value"@) || (field.data_type->Struct_0[0].name == "value"@
            && field.data_type->Struct_0[1].name == "metadata"@),
    ensures
        plan_field(LogicalType::Variant(unshredded_variant_fields()), index, field, leaf) is Ok,
{
    reveal_strlit("metadata");
    reveal_strlit("value");
    assert("metadata"@ != "value"@) by {
        assert("metadata"@.len() == 8);
    }
    let wanted = unshredded_variant_fields();
    let fs = field.data_type->Struct_0;
    lemma_position_of(wanted, fs[0].name);
    lemma_position_of(wanted, fs[1].name);
    assert(plan_prefix(wanted, fs, 1, leaf) is Ok) by {
        reveal_with_fuel(plan_prefix, 2);
    }
    assert(missing_nodes(wanted, fs, 2) is Ok) by {
        reveal_with_fuel(missing_nodes, 3);
    }
    assert(plan_level(wanted, fs, leaf) is Ok);
}

/// Every cast that a plan asks for leads to a type that a widening leads to, so that the
/// reorderer takes it.
pub proof fn lemma_planned_cast_is_widening(requested: LogicalType, physical: PhysicalType)
    requires
        leaf_compat(requested, physical) is NeedsCast,
    ensures
        crate::arrow_calls::is_cast_target(leaf_compat(requested, physical)->NeedsCast_0),
{
}

} // verus!
