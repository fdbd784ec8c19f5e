//! What holds of every batch that the reorderer gives.

use crate::column::{column_len, column_nulls, column_type, StructView};
use crate::null_mask::row_is_null;
use crate::error::ErrorView;
use crate::plan::{is_bijection, is_target, level_needs_transform, PlanNode};
use crate::reorder::{
    every_column_consumed, lemma_place_step, place_nodes, reorder_struct, shape_node, Placed,
};
use vstd::prelude::*;

verus! {

/// Where no two nodes have the same target, what the node at position `k` gives stands at
/// its target once the first `n` nodes, `k` among them, were placed.
pub proof fn lemma_place_nodes_at_target(input: StructView, plan: Seq<PlanNode>, n: nat, k: int)
    requires
        0 <= k < n <= plan.len(),
        forall|a: int, b: int|
            0 <= a < plan.len() && 0 <= b < plan.len() && a != b ==> (#[trigger] plan[a]).index != (
            #[trigger] plan[b]).index,
        place_nodes(input, plan, n) is Ok,
    ensures
        shape_node(input, plan[k], k as nat) is Ok,
        plan[k].index < plan.len(),
        place_nodes(input, plan, n)->Ok_0.len() == plan.len(),
        place_nodes(input, plan, n)->Ok_0[plan[k].index as int] == Some(
            shape_node(input, plan[k], k as nat)->Ok_0,
        ),
    decreases n,
{
    lemma_place_step(input, plan, (n - 1) as nat);
    lemma_place_nodes_len(input, plan, (n - 1) as nat);
    if k < n - 1 {
        lemma_place_nodes_at_target(input, plan, (n - 1) as nat, k);
    }
}

/// There is an output position for each node of the plan.
pub proof fn lemma_place_nodes_len(input: StructView, plan: Seq<PlanNode>, n: nat)
    requires
        n <= plan.len(),
        place_nodes(input, plan, n) is Ok,
    ensures
        place_nodes(input, plan, n)->Ok_0.len() == plan.len(),
    decreases n,
{
    if n > 0 {
        lemma_place_step(input, plan, (n - 1) as nat);
        lemma_place_nodes_len(input, plan, (n - 1) as nat);
    }
}

/// Reshaping follows the plan: where the targets of a level are a bijection and the level
/// asks for work, the output holds at the target of each node what that node gives for the
/// column at the node's own position, and nothing else.
pub proof fn lemma_reorder_places_each_node(input: StructView, plan: Seq<PlanNode>, k: int)
    requires
        0 <= k < plan.len(),
        is_bijection(plan),
        level_needs_transform(plan),
        reorder_struct(input, plan) is Ok,
    ensures
        shape_node(input, plan[k], k as nat) is Ok,
        reorder_struct(input, plan)->Ok_0.columns.len() == plan.len(),
        reorder_struct(input, plan)->Ok_0.fields.len() == plan.len(),
        reorder_struct(input, plan)->Ok_0.columns[plan[k].index as int] == shape_node(
            input,
            plan[k],
            k as nat,
        )->Ok_0.column,
        reorder_struct(input, plan)->Ok_0.fields[plan[k].index as int] == shape_node(
            input,
            plan[k],
            k as nat,
        )->Ok_0.field,
{
    lemma_place_nodes_at_target(input, plan, plan.len(), k);
}

/// A node for a missing field gives a column of NULLs alone, of the field's type and of as
/// many rows as the batch has, under the field itself.
pub proof fn lemma_missing_node_gives_nulls(
    input: StructView,
    node: PlanNode,
    position: nat,
    i: int,
)
    requires
        node.transform is Missing,
        0 <= i < input.len,
    ensures
        shape_node(input, node, position) matches Ok(placed) && placed.field
            == node.transform->Missing_0 && column_type(placed.column)
            == node.transform->Missing_0.data_type && column_len(placed.column) == input.len
            && row_is_null(column_nulls(placed.column), i),
{
}

/// Whether the node at position `k` of a level fails with `e`.
pub open spec fn fails_at(input: StructView, plan: Seq<PlanNode>, k: int, e: ErrorView) -> bool {
    0 <= k < plan.len() && shape_node(input, plan[k], k as nat) == Err::<Placed, ErrorView>(e)
}

/// Where every target of a level is a position of the level, a failure to place the first
/// `n` nodes is the failure of one of those nodes.
pub proof fn lemma_place_fails_at_a_node(input: StructView, plan: Seq<PlanNode>, n: nat)
    requires
        n <= plan.len(),
        forall|k: int| 0 <= k < plan.len() ==> (#[trigger] plan[k]).index < plan.len(),
        place_nodes(input, plan, n) is Err,
    ensures
        exists|k: int| #[trigger] fails_at(input, plan, k, place_nodes(input, plan, n)->Err_0),
    decreases n,
{
    if n > 0 {
        lemma_place_step(input, plan, (n - 1) as nat);
        if place_nodes(input, plan, (n - 1) as nat) is Err {
            lemma_place_fails_at_a_node(input, plan, (n - 1) as nat);
        } else {
            assert(fails_at(input, plan, n - 1, place_nodes(input, plan, n)->Err_0));
        }
    }
}

/// Where the targets of a level are a bijection and each column is consumed by a node,
/// reshaping fails only where a node fails: every output position is filled, and no target
/// lies beyond the level.
pub proof fn lemma_reorder_fails_at_a_node(input: StructView, plan: Seq<PlanNode>)
    requires
        is_bijection(plan),
        every_column_consumed(input, plan),
        reorder_struct(input, plan) is Err,
    ensures
        exists|k: int| #[trigger] fails_at(input, plan, k, reorder_struct(input, plan)->Err_0),
{
    if place_nodes(input, plan, plan.len()) is Err {
        lemma_place_fails_at_a_node(input, plan, plan.len());
        let e = place_nodes(input, plan, plan.len())->Err_0;
        let k = choose|k: int| #[trigger] fails_at(input, plan, k, e);
    } else {
        let slots = place_nodes(input, plan, plan.len())->Ok_0;
        lemma_place_nodes_len(input, plan, plan.len());
        assert forall|j: int| 0 <= j < slots.len() implies (#[trigger] slots[j]) is Some by {
            assert(is_target(plan, j));
            let k = choose|k: int| 0 <= k < plan.len() && (#[trigger] plan[k]).index == j;
            lemma_place_nodes_at_target(input, plan, plan.len(), k);
        }
    }
}

} // verus!
