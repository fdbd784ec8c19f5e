//! Null-mask repair: a row that is NULL in a struct is NULL in every column below it.
//!
//! A decoder may leave the validity of a nested column incomplete: the row is NULL in an
//! ancestor, and the column's own mask does not say so. Repair unions the NULLs of every
//! ancestor struct into each column below it.

use crate::arrow_calls::{borrowed_mask_view, union_nulls, union_spec};
use crate::column::{
    column_aligned, column_len, column_nulls, column_type, column_wf, columns_view, into_options,
    lemma_wf_mask_fits, mask_fits, mask_view, masks_aligned, struct_wf, Column, ColumnView,
    LeafColumn, ListColumn, MapColumn, StructColumn, StructView,
};
use vstd::prelude::*;

verus! {

/// A column after repair under the NULLs `parent` of its ancestors: a struct is repaired
/// level by level; any other column gets the union of `parent` and its own NULLs, and
/// nothing else of it changes.
pub open spec fn reconcile_column(c: ColumnView, parent: Option<Seq<bool>>) -> ColumnView
    decreases c,
{
    match c {
        ColumnView::Leaf { data_type, len, nulls, buffers } => ColumnView::Leaf {
            data_type,
            len,
            nulls: union_spec(parent, nulls),
            buffers,
        },
        ColumnView::Struct(s) => ColumnView::Struct(reconcile_struct(s, parent)),
        ColumnView::List { field, large, offsets, values, nulls } => ColumnView::List {
            field,
            large,
            offsets,
            values,
            nulls: union_spec(parent, nulls),
        },
        ColumnView::MapOf { field, entry_offsets, entries, nulls, ordered } => ColumnView::MapOf {
            field,
            entry_offsets,
            entries,
            nulls: union_spec(parent, nulls),
            ordered,
        },
    }
}

/// A struct after repair under the NULLs `parent` of its ancestors: its own NULLs are
/// united with `parent`, and each of its columns is repaired under the result.
pub open spec fn reconcile_struct(s: StructView, parent: Option<Seq<bool>>) -> StructView
    decreases s,
{
    let nulls = union_spec(parent, s.nulls);
    StructView {
        fields: s.fields,
        columns: Seq::new(
            s.columns.len(),
            |i: int|
                if 0 <= i < s.columns.len() {
                    reconcile_column(s.columns[i], nulls)
                } else {
                    arbitrary()
                },
        ),
        nulls,
        len: s.len,
    }
}

/// Repairs the null masks of a batch: in the result, a row that is NULL in a struct is NULL
/// in every column below that struct.
pub fn fix_nested_null_masks(batch: StructColumn) -> (res: StructColumn)
    requires
        masks_aligned(batch@),
    ensures
        res@ == reconcile_struct(batch@, None),
        masks_aligned(res@),
{
    proof {
        lemma_reconcile_struct_aligned(batch@, None);
    }
    compute_nested_null_masks(batch, None)
}

/// Repairs a struct column under the NULLs of its ancestors.
pub fn compute_nested_null_masks(sa: StructColumn, parent_nulls: Option<&Vec<bool>>) -> (res:
    StructColumn)
    requires
        masks_aligned(sa@),
        parent_nulls matches Some(bits) ==> bits.len() == sa.len,
    ensures
        res@ == reconcile_struct(sa@, borrowed_mask_view(parent_nulls)),
    decreases sa,
{
    let ghost before = sa@;
    let ghost parent = borrowed_mask_view(parent_nulls);
    let ghost whole = sa;
    let StructColumn { fields, columns, nulls, len } = sa;
    let nulls = union_nulls(parent_nulls, nulls.as_ref());
    let ghost accumulated = mask_view(nulls);
    let count = columns.len();
    let mut slots = into_options(columns);
    let mut repaired: Vec<Column> = Vec::new();
    let mut i: usize = 0;
    while i < count
        invariant
            i <= count,
            count == columns.len(),
            slots.len() == count,
            repaired.len() == i,
            whole == sa,
            whole.columns == columns,
            masks_aligned(before),
            before.columns == columns_view(columns),
            before.len == len,
            accumulated == mask_view(nulls),
            accumulated == union_spec(parent, before.nulls),
            mask_fits(accumulated, len as nat),
            forall|j: int| i <= j < count ==> #[trigger] slots[j] == Some(columns[j]),
            forall|j: int|
                0 <= j < i ==> (#[trigger] repaired[j])@ == reconcile_column(
                    before.columns[j],
                    accumulated,
                ),
        decreases count - i,
    {
        let column = slots[i].take().unwrap();
        assert(before.columns[i as int] == column@);
        let fixed = match column {
            Column::Struct(child) => Column::Struct(
                compute_nested_null_masks(child, nulls.as_ref()),
            ),
            Column::Leaf(leaf) => {
                let LeafColumn { data_type, len, nulls: own, values } = leaf;
                Column::Leaf(
                    LeafColumn {
                        data_type,
                        len,
                        nulls: union_nulls(nulls.as_ref(), own.as_ref()),
                        values,
                    },
                )
            },
            Column::List(list) => {
                let ListColumn { field, large, offsets, values, nulls: own } = list;
                Column::List(
                    ListColumn {
                        field,
                        large,
                        offsets,
                        values,
                        nulls: union_nulls(nulls.as_ref(), own.as_ref()),
                    },
                )
            },
            Column::MapOf(map) => {
                let MapColumn { field, offsets, entries, nulls: own, ordered } = map;
                Column::MapOf(
                    MapColumn {
                        field,
                        offsets,
                        entries,
                        nulls: union_nulls(nulls.as_ref(), own.as_ref()),
                        ordered,
                    },
                )
            },
        };
        repaired.push(fixed);
        i += 1;
    }
    let res = StructColumn { fields, columns: repaired, nulls, len };
    assert(res@.columns =~= reconcile_struct(before, parent).columns);
    res
}

/// Whether a validity mask marks row `i` as NULL.
pub open spec fn row_is_null(nulls: Option<Seq<bool>>, i: int) -> bool {
    nulls matches Some(bits) && 0 <= i < bits.len() && !bits[i]
}

/// Whether every column below a struct, as far as structs reach, marks as NULL each row that
/// `ancestors` marks.
pub open spec fn column_covers(c: ColumnView, ancestors: Option<Seq<bool>>) -> bool
    decreases c,
{
    &&& forall|i: int| row_is_null(ancestors, i) ==> row_is_null(column_nulls(c), i)
    &&& c matches ColumnView::Struct(s) ==> struct_covers(s)
}

/// Whether each column of a struct marks as NULL each row that the struct marks, and so on
/// below.
pub open spec fn struct_covers(s: StructView) -> bool
    decreases s,
{
    forall|k: int| 0 <= k < s.columns.len() ==> column_covers(#[trigger] s.columns[k], s.nulls)
}

/// Whether `after` is `before` with no NULL taken away: the same column, and each row that
/// was NULL still is.
pub open spec fn column_keeps_nulls(before: ColumnView, after: ColumnView) -> bool
    decreases before,
{
    &&& forall|i: int|
        row_is_null(column_nulls(before), i) ==> row_is_null(
            column_nulls(after),
            i,
        )
    &&& match before {
        ColumnView::Struct(s) => after matches ColumnView::Struct(t) && s.columns.len()
            == t.columns.len() && forall|k: int|
            0 <= k < s.columns.len() ==> column_keeps_nulls(#[trigger] s.columns[k], t.columns[k]),
        _ => true,
    }
}

/// The union of two masks marks a row as NULL exactly where one of them does.
pub proof fn lemma_union_rows(lhs: Option<Seq<bool>>, rhs: Option<Seq<bool>>, len: nat)
    requires
        mask_fits(lhs, len),
        mask_fits(rhs, len),
    ensures
        mask_fits(union_spec(lhs, rhs), len),
        forall|i: int|
            row_is_null(union_spec(lhs, rhs), i) <==> (row_is_null(lhs, i) || row_is_null(rhs, i)),
{
}

/// Uniting a mask once more into a union that already holds it changes nothing.
pub proof fn lemma_union_absorbs(lhs: Option<Seq<bool>>, rhs: Option<Seq<bool>>)
    ensures
        union_spec(lhs, union_spec(lhs, rhs)) == union_spec(lhs, rhs),
{
}

/// Repair is idempotent: to repair a repaired column again, under the same NULLs of its
/// ancestors, changes nothing.
pub proof fn lemma_reconcile_column_idempotent(c: ColumnView, parent: Option<Seq<bool>>)
    ensures
        reconcile_column(reconcile_column(c, parent), parent) == reconcile_column(c, parent),
    decreases c,
{
    match c {
        ColumnView::Struct(s) => {
            lemma_reconcile_struct_idempotent(s, parent);
        },
        ColumnView::Leaf { nulls, .. } => {
            lemma_union_absorbs(parent, nulls);
        },
        ColumnView::List { nulls, .. } => {
            lemma_union_absorbs(parent, nulls);
        },
        ColumnView::MapOf { nulls, .. } => {
            lemma_union_absorbs(parent, nulls);
        },
    }
}

/// Repair is idempotent: to repair a repaired batch again changes nothing.
pub proof fn lemma_reconcile_struct_idempotent(s: StructView, parent: Option<Seq<bool>>)
    ensures
        reconcile_struct(reconcile_struct(s, parent), parent) == reconcile_struct(s, parent),
    decreases s,
{
    let nulls = union_spec(parent, s.nulls);
    let once = reconcile_struct(s, parent);
    let twice = reconcile_struct(once, parent);
    lemma_union_absorbs(parent, s.nulls);
    assert forall|i: int| 0 <= i < s.columns.len() implies twice.columns[i] == once.columns[i] by {
        lemma_reconcile_column_idempotent(s.columns[i], nulls);
    }
    assert(twice.columns =~= once.columns);
}

/// Repair is monotonic: it takes no NULL away, at any level.
pub proof fn lemma_reconcile_column_keeps_nulls(c: ColumnView, parent: Option<Seq<bool>>)
    requires
        column_wf(c),
        mask_fits(parent, column_len(c)),
    ensures
        column_keeps_nulls(c, reconcile_column(c, parent)),
    decreases c,
{
    lemma_wf_mask_fits(c);
    lemma_union_rows(parent, column_nulls(c), column_len(c));
    match c {
        ColumnView::Struct(s) => {
            lemma_reconcile_struct_keeps_nulls(s, parent);
        },
        _ => {},
    }
}

/// Repair is monotonic: it takes no NULL away from the struct or from any column below it.
pub proof fn lemma_reconcile_struct_keeps_nulls(s: StructView, parent: Option<Seq<bool>>)
    requires
        struct_wf(s),
        mask_fits(parent, s.len),
    ensures
        column_keeps_nulls(ColumnView::Struct(s), ColumnView::Struct(reconcile_struct(s, parent))),
    decreases s,
{
    lemma_union_rows(parent, s.nulls, s.len);
    let nulls = union_spec(parent, s.nulls);
    let after = reconcile_struct(s, parent);
    assert forall|k: int| 0 <= k < s.columns.len() implies column_keeps_nulls(
        #[trigger] s.columns[k],
        after.columns[k],
    ) by {
        lemma_reconcile_column_keeps_nulls(s.columns[k], nulls);
    }
}

/// After repair under the NULLs of its ancestors, a column marks as NULL each row that its
/// ancestors mark, and so does every column below it, as far as structs reach.
pub proof fn lemma_reconcile_column_covers(c: ColumnView, parent: Option<Seq<bool>>)
    requires
        column_wf(c),
        mask_fits(parent, column_len(c)),
    ensures
        column_covers(reconcile_column(c, parent), parent),
    decreases c,
{
    lemma_wf_mask_fits(c);
    lemma_union_rows(parent, column_nulls(c), column_len(c));
    match c {
        ColumnView::Struct(s) => {
            lemma_reconcile_struct_covers(s, parent);
        },
        _ => {},
    }
}

/// After repair, each column of a batch marks as NULL each row that a struct above it marks:
/// a row that is NULL in an ancestor reads as NULL in every descendant.
pub proof fn lemma_reconcile_struct_covers(s: StructView, parent: Option<Seq<bool>>)
    requires
        struct_wf(s),
        mask_fits(parent, s.len),
    ensures
        struct_covers(reconcile_struct(s, parent)),
    decreases s,
{
    lemma_union_rows(parent, s.nulls, s.len);
    let nulls = union_spec(parent, s.nulls);
    let after = reconcile_struct(s, parent);
    assert forall|k: int| 0 <= k < after.columns.len() implies column_covers(
        #[trigger] after.columns[k],
        after.nulls,
    ) by {
        lemma_reconcile_column_covers(s.columns[k], nulls);
    }
}

/// Repair keeps the masks of a batch aligned.
pub proof fn lemma_reconcile_struct_aligned(s: StructView, parent: Option<Seq<bool>>)
    requires
        masks_aligned(s),
        mask_fits(parent, s.len),
    ensures
        masks_aligned(reconcile_struct(s, parent)),
    decreases s,
{
    lemma_union_rows(parent, s.nulls, s.len);
    let nulls = union_spec(parent, s.nulls);
    let after = reconcile_struct(s, parent);
    assert forall|k: int| 0 <= k < after.columns.len() implies column_aligned(
        #[trigger] after.columns[k],
        after.len,
    ) by {
        let c = s.columns[k];
        assert(column_aligned(c, s.len));
        lemma_union_rows(nulls, column_nulls(c), s.len);
        match c {
            ColumnView::Struct(t) => {
                lemma_reconcile_struct_aligned(t, nulls);
            },
            _ => {},
        }
    }
}

/// Repair keeps a batch well formed.
pub proof fn lemma_reconcile_struct_wf(s: StructView, parent: Option<Seq<bool>>)
    requires
        struct_wf(s),
        mask_fits(parent, s.len),
    ensures
        struct_wf(reconcile_struct(s, parent)),
        reconcile_struct(s, parent).len == s.len,
        reconcile_struct(s, parent).fields == s.fields,
    decreases s,
{
    lemma_union_rows(parent, s.nulls, s.len);
    let nulls = union_spec(parent, s.nulls);
    let after = reconcile_struct(s, parent);
    assert forall|k: int| 0 <= k < after.columns.len() implies {
        &&& column_len(#[trigger] after.columns[k]) == after.len
        &&& after.fields[k].data_type == column_type(after.columns[k])
        &&& column_wf(after.columns[k])
    } by {
        lemma_reconcile_column_wf(s.columns[k], nulls);
    }
}

/// Repair keeps a column well formed, of its length and of its type.
pub proof fn lemma_reconcile_column_wf(c: ColumnView, parent: Option<Seq<bool>>)
    requires
        column_wf(c),
        mask_fits(parent, column_len(c)),
    ensures
        column_wf(reconcile_column(c, parent)),
        column_len(reconcile_column(c, parent)) == column_len(c),
        column_type(reconcile_column(c, parent)) == column_type(c),
    decreases c,
{
    lemma_wf_mask_fits(c);
    lemma_union_rows(parent, column_nulls(c), column_len(c));
    match c {
        ColumnView::Struct(s) => {
            lemma_reconcile_struct_wf(s, parent);
        },
        _ => {},
    }
}

} // verus!
