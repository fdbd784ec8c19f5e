//! The reorder plan: a tree that says, for each column decoded at a level, where it goes in
//! the output and what is done to it on the way.

use crate::physical::{
    physical_field_view, physical_type_view, ArrowDataType, ArrowField, PhysicalField,
    PhysicalType,
};
use vstd::prelude::*;

verus! {

/// One node of a plan. Its place in its level is the position of the decoded column that it
/// speaks of; `index` is the position of that column in the output.
#[derive(Debug, PartialEq)]
pub struct ReorderIndex {
    pub index: usize,
    pub transform: ReorderIndexTransform,
}

/// What is done to a column on its way to the output.
#[derive(Debug, PartialEq)]
pub enum ReorderIndexTransform {
    /// The column has no children; its values are cast to the type given.
    Cast(ArrowDataType),
    /// The column is a struct, a list or a map; its children are reshaped by the plan given.
    Nested(Vec<ReorderIndex>),
    /// The column is placed as it is.
    Identity,
    /// No column was decoded; a column of NULLs is made for the field given.
    Missing(ArrowField),
}

/// The mathematical view of a [`ReorderIndex`].
pub ghost struct PlanNode {
    pub index: nat,
    pub transform: Transform,
}

/// The mathematical view of a [`ReorderIndexTransform`].
pub ghost enum Transform {
    Cast(PhysicalType),
    Nested(Seq<PlanNode>),
    Identity,
    Missing(PhysicalField),
}

/// The view of a plan node.
pub open spec fn node_view(n: ReorderIndex) -> PlanNode
    decreases n,
{
    PlanNode {
        index: n.index as nat,
        transform: match n.transform {
            ReorderIndexTransform::Cast(t) => Transform::Cast(physical_type_view(t)),
            ReorderIndexTransform::Nested(children) => Transform::Nested(plan_view(children)),
            ReorderIndexTransform::Identity => Transform::Identity,
            ReorderIndexTransform::Missing(f) => Transform::Missing(physical_field_view(f)),
        },
    }
}

/// The views of the nodes of one level, in order.
pub open spec fn plan_view(nodes: Vec<ReorderIndex>) -> Seq<PlanNode>
    decreases nodes,
{
    Seq::new(
        nodes.len() as nat,
        |i: int|
            if 0 <= i < nodes.len() {
                node_view(nodes[i])
            } else {
                arbitrary()
            },
    )
}

impl View for ReorderIndex {
    type V = PlanNode;

    open spec fn view(&self) -> PlanNode {
        node_view(*self)
    }
}

/// Whether the node asks for more than to place a column as it is: it casts, it makes a
/// column of NULLs, or its children need a transform.
pub open spec fn node_needs_transform(n: PlanNode) -> bool
    decreases n,
{
    match n.transform {
        Transform::Cast(_) => true,
        Transform::Missing(_) => true,
        Transform::Nested(children) => level_needs_transform(children),
        Transform::Identity => false,
    }
}

/// Whether a level asks for any work: some node needs a transform, or the target positions
/// are not strictly ascending.
pub open spec fn level_needs_transform(nodes: Seq<PlanNode>) -> bool
    decreases nodes,
{
    ||| exists|i: int| 0 <= i < nodes.len() && node_needs_transform(#[trigger] nodes[i])
    ||| exists|i: int| 0 <= i < nodes.len() - 1 && (#[trigger] nodes[i]).index >= nodes[i + 1].index
}

/// Whether some node of the level has the target `j`.
pub open spec fn is_target(nodes: Seq<PlanNode>, j: int) -> bool {
    exists|k: int| 0 <= k < nodes.len() && (#[trigger] nodes[k]).index == j
}

/// Whether the targets of a level are a bijection between its nodes and its output
/// positions: each target is a position of the level, no two nodes have the same target, and
/// each position is the target of a node.
pub open spec fn is_bijection(nodes: Seq<PlanNode>) -> bool {
    &&& forall|k: int| 0 <= k < nodes.len() ==> (#[trigger] nodes[k]).index < nodes.len()
    &&& forall|a: int, b: int|
        0 <= a < nodes.len() && 0 <= b < nodes.len() && a != b ==> (#[trigger] nodes[a]).index != (
        #[trigger] nodes[b]).index
    &&& forall|j: int| 0 <= j < nodes.len() ==> #[trigger] is_target(nodes, j)
}

/// Whether the targets are a bijection at this level and at every level below it.
pub open spec fn plan_is_bijection(nodes: Seq<PlanNode>) -> bool
    decreases nodes,
{
    &&& is_bijection(nodes)
    &&& forall|k: int|
        0 <= k < nodes.len() ==> ((#[trigger] nodes[k]).transform matches Transform::Nested(
            children,
        ) ==> plan_is_bijection(children))
}

/// Whether the levels below a node are bijections.
pub open spec fn below_is_bijection(node: PlanNode) -> bool {
    node.transform matches Transform::Nested(children) ==> plan_is_bijection(children)
}

impl ReorderIndex {
    /// A node that sends its column to `index` with the given transform.
    pub fn new(index: usize, transform: ReorderIndexTransform) -> (n: ReorderIndex)
        ensures
            n.index == index,
            n.transform == transform,
    {
        ReorderIndex { index, transform }
    }

    /// A node that casts its column to `target` and sends it to `index`.
    pub fn cast(index: usize, target: ArrowDataType) -> (n: ReorderIndex)
        ensures
            n@ == (PlanNode { index: index as nat, transform: Transform::Cast(target@) }),
    {
        ReorderIndex::new(index, ReorderIndexTransform::Cast(target))
    }

    /// A node that reshapes the children of its column by `children` and sends it to `index`.
    pub fn nested(index: usize, children: Vec<ReorderIndex>) -> (n: ReorderIndex)
        ensures
            n@ == (PlanNode {
                index: index as nat,
                transform: Transform::Nested(plan_view(children)),
            }),
    {
        ReorderIndex::new(index, ReorderIndexTransform::Nested(children))
    }

    /// A node that sends its column to `index` as it is.
    pub fn identity(index: usize) -> (n: ReorderIndex)
        ensures
            n@ == (PlanNode { index: index as nat, transform: Transform::Identity }),
    {
        ReorderIndex::new(index, ReorderIndexTransform::Identity)
    }

    /// A node that puts a column of NULLs for `field` at `index`.
    pub fn missing(index: usize, field: ArrowField) -> (n: ReorderIndex)
        ensures
            n@ == (PlanNode { index: index as nat, transform: Transform::Missing(field@) }),
    {
        ReorderIndex::new(index, ReorderIndexTransform::Missing(field))
    }

    /// Whether this node asks for more than to place its column as it is.
    pub fn needs_transform(&self) -> (b: bool)
        ensures
            b == node_needs_transform(self@),
        decreases self, 0nat,
    {
        match &self.transform {
            ReorderIndexTransform::Cast(_) => true,
            ReorderIndexTransform::Missing(_) => true,
            ReorderIndexTransform::Nested(children) => ordering_needs_transform(children),
            ReorderIndexTransform::Identity => false,
        }
    }
}

/// Whether a level asks for any work: some node needs a transform, or the target positions
/// are not strictly ascending. Where it does not, the decoded columns are the output.
pub fn ordering_needs_transform(requested_ordering: &Vec<ReorderIndex>) -> (b: bool)
    ensures
        b == level_needs_transform(plan_view(*requested_ordering)),
    decreases requested_ordering, 1nat,
{
    let ghost nodes = plan_view(*requested_ordering);
    let n = requested_ordering.len();
    let mut i: usize = 0;
    while i < n
        invariant
            i <= n,
            n == requested_ordering.len(),
            nodes == plan_view(*requested_ordering),
            forall|j: int| 0 <= j < i ==> !node_needs_transform(#[trigger] nodes[j]),
            forall|j: int| 0 <= j < i - 1 ==> (#[trigger] nodes[j]).index < nodes[j + 1].index,
        decreases n - i,
    {
        if requested_ordering[i].needs_transform() {
            return true;
        }
        if i > 0 && requested_ordering[i - 1].index >= requested_ordering[i].index {
            assert(nodes[i - 1].index >= nodes[i - 1 + 1].index);
            return true;
        }
        i += 1;
    }
    false
}

} // verus!
