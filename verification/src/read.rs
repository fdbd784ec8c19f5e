//! The whole of what is done to a batch after it was decoded.

use crate::column::{masks_aligned, StructColumn};
use crate::error::Error;
use crate::null_mask::{fix_nested_null_masks, reconcile_struct};
use crate::plan::{plan_view, ReorderIndex};
use crate::reorder::{reorder_struct, reorder_struct_array};
use vstd::prelude::*;

verus! {

/// Shapes a batch that was just decoded: reshapes it by the plan, then repairs its null
/// masks.
pub fn fixup_parquet_read(batch: StructColumn, requested_ordering: &Vec<ReorderIndex>) -> (res:
    Result<StructColumn, Error>)
    requires
        masks_aligned(batch@),
    ensures
        match reorder_struct(batch@, plan_view(*requested_ordering)) {
            Ok(reshaped) => res matches Ok(fixed) && fixed@ == reconcile_struct(reshaped, None),
            Err(e) => res matches Err(err) && err@ == e,
        },
{
    match reorder_struct_array(batch, requested_ordering) {
        Ok(reshaped) => Ok(fix_nested_null_masks(reshaped)),
        Err(e) => Err(e),
    }
}

} // verus!
