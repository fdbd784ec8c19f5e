//! A decoded batch: columns of equal length, nested as their types are.
//!
//! A column holds as plain values what reshaping and null-mask repair read: its type, its
//! length, its validity and its children. The array of a column that is not looked into is
//! an opaque value that is carried along.

use crate::arrow_calls::{array_len, array_type, length_of, ArrayValues};
use crate::physical::{
    physical_field_view, physical_fields_view, physical_type_view, ArrowDataType, ArrowField,
    PhysicalField, PhysicalType,
};
use vstd::prelude::*;

verus! {

/// A column.
#[derive(Debug)]
pub enum Column {
    /// A column whose children, if its type has any, are not looked into.
    Leaf(LeafColumn),
    Struct(StructColumn),
    List(ListColumn),
    MapOf(MapColumn),
}

/// A column that is not looked into. `nulls` holds one validity bit for each row: `true`
/// for a row that holds a value, `false` for NULL; `None` where every row holds a value.
/// `values` holds the array that was decoded or cast; it is `None` for a column that was
/// made of NULLs alone.
#[derive(Debug)]
pub struct LeafColumn {
    pub data_type: ArrowDataType,
    pub len: usize,
    pub nulls: Option<Vec<bool>>,
    pub values: Option<ArrayValues>,
}

/// A struct column, and a batch: one child column for each field, all of `len` rows.
#[derive(Debug)]
pub struct StructColumn {
    pub fields: Vec<ArrowField>,
    pub columns: Vec<Column>,
    pub nulls: Option<Vec<bool>>,
    pub len: usize,
}

/// A list column: row `i` holds the elements of `values` from `offsets[i]` up to
/// `offsets[i + 1]`. `field` describes the elements; `large` says that the file stores the
/// offsets in 64 bits.
#[derive(Debug)]
pub struct ListColumn {
    pub field: ArrowField,
    pub large: bool,
    pub offsets: Vec<i64>,
    pub values: Box<Column>,
    pub nulls: Option<Vec<bool>>,
}

/// A map column: row `i` holds the entries from `offsets[i]` up to `offsets[i + 1]`. `field`
/// describes the entries, a struct of a key and a value; `ordered` says that the keys of
/// each row are sorted.
#[derive(Debug)]
pub struct MapColumn {
    pub field: ArrowField,
    pub offsets: Vec<i32>,
    pub entries: StructColumn,
    pub nulls: Option<Vec<bool>>,
    pub ordered: bool,
}

/// The mathematical view of a [`Column`].
pub ghost enum ColumnView {
    Leaf {
        data_type: PhysicalType,
        len: nat,
        nulls: Option<Seq<bool>>,
        buffers: Option<ArrayValues>,
    },
    Struct(StructView),
    List {
        field: PhysicalField,
        large: bool,
        offsets: Seq<i64>,
        values: Box<ColumnView>,
        nulls: Option<Seq<bool>>,
    },
    MapOf {
        field: PhysicalField,
        entry_offsets: Seq<i32>,
        entries: StructView,
        nulls: Option<Seq<bool>>,
        ordered: bool,
    },
}

/// The mathematical view of a [`StructColumn`].
pub ghost struct StructView {
    pub fields: Seq<PhysicalField>,
    pub columns: Seq<ColumnView>,
    pub nulls: Option<Seq<bool>>,
    pub len: nat,
}

/// The view of a validity mask.
pub open spec fn mask_view(nulls: Option<Vec<bool>>) -> Option<Seq<bool>> {
    match nulls {
        Some(v) => Some(v@),
        None => None,
    }
}

/// The view of a column.
pub open spec fn column_view(c: Column) -> ColumnView
    decreases c,
{
    match c {
        Column::Leaf(l) => ColumnView::Leaf {
            data_type: physical_type_view(l.data_type),
            len: l.len as nat,
            nulls: mask_view(l.nulls),
            buffers: l.values,
        },
        Column::Struct(s) => ColumnView::Struct(struct_view(s)),
        Column::List(l) => ColumnView::List {
            field: physical_field_view(l.field),
            large: l.large,
            offsets: l.offsets@,
            values: Box::new(column_view(*l.values)),
            nulls: mask_view(l.nulls),
        },
        Column::MapOf(m) => ColumnView::MapOf {
            field: physical_field_view(m.field),
            entry_offsets: m.offsets@,
            entries: struct_view(m.entries),
            nulls: mask_view(m.nulls),
            ordered: m.ordered,
        },
    }
}

/// The view of a struct column.
pub open spec fn struct_view(s: StructColumn) -> StructView
    decreases s,
{
    StructView {
        fields: physical_fields_view(s.fields),
        columns: columns_view(s.columns),
        nulls: mask_view(s.nulls),
        len: s.len as nat,
    }
}

/// The views of the columns of a level, in order.
pub open spec fn columns_view(cs: Vec<Column>) -> Seq<ColumnView>
    decreases cs,
{
    Seq::new(
        cs.len() as nat,
        |i: int|
            if 0 <= i < cs.len() {
                column_view(cs[i])
            } else {
                arbitrary()
            },
    )
}

impl View for Column {
    type V = ColumnView;

    open spec fn view(&self) -> ColumnView {
        column_view(*self)
    }
}

impl View for StructColumn {
    type V = StructView;

    open spec fn view(&self) -> StructView {
        struct_view(*self)
    }
}

/// The type of a column.
pub open spec fn column_type(c: ColumnView) -> PhysicalType {
    match c {
        ColumnView::Leaf { data_type, .. } => data_type,
        ColumnView::Struct(s) => PhysicalType::Struct(s.fields),
        ColumnView::List { field, large, .. } => if large {
            PhysicalType::LargeList(Box::new(field))
        } else {
            PhysicalType::List(Box::new(field))
        },
        ColumnView::MapOf { field, ordered, .. } => PhysicalType::MapOf(Box::new(field), ordered),
    }
}

/// The number of rows of a column.
pub open spec fn column_len(c: ColumnView) -> nat {
    match c {
        ColumnView::Leaf { len, .. } => len,
        ColumnView::Struct(s) => s.len,
        ColumnView::List { offsets, .. } => (offsets.len() - 1) as nat,
        ColumnView::MapOf { entry_offsets, .. } => (entry_offsets.len() - 1) as nat,
    }
}

/// The validity of a column.
pub open spec fn column_nulls(c: ColumnView) -> Option<Seq<bool>> {
    match c {
        ColumnView::Leaf { nulls, .. } => nulls,
        ColumnView::Struct(s) => s.nulls,
        ColumnView::List { nulls, .. } => nulls,
        ColumnView::MapOf { nulls, .. } => nulls,
    }
}

/// A validity mask fits a column of `len` rows when it has one bit for each row.
pub open spec fn mask_fits(nulls: Option<Seq<bool>>, len: nat) -> bool {
    nulls matches Some(bits) ==> bits.len() == len
}

/// A column is well formed when its validity has one bit for each row, its array, where it
/// holds one, has its rows and its type, its offsets are one more than its rows, each child
/// it describes has the type it is described with, and its children are well formed.
pub open spec fn column_wf(c: ColumnView) -> bool
    decreases c,
{
    match c {
        ColumnView::Leaf { data_type, len, nulls, buffers } => {
            &&& mask_fits(nulls, len)
            &&& buffers matches Some(array) ==> array_len(array) == len && array_type(array)
                == data_type
        },
        ColumnView::Struct(s) => struct_wf(s),
        ColumnView::List { field, offsets, values, nulls, .. } => {
            &&& offsets.len() >= 1
            &&& mask_fits(nulls, (offsets.len() - 1) as nat)
            &&& field.data_type == column_type(*values)
            &&& column_wf(*values)
        },
        ColumnView::MapOf { field, entry_offsets, entries, nulls, .. } => {
            &&& entry_offsets.len() >= 1
            &&& mask_fits(nulls, (entry_offsets.len() - 1) as nat)
            &&& field.data_type == PhysicalType::Struct(entries.fields)
            &&& struct_wf(entries)
        },
    }
}

/// A struct column is well formed when it has one column for each field, of the field's type
/// and of the struct's length, and each column is well formed.
pub open spec fn struct_wf(s: StructView) -> bool
    decreases s,
{
    &&& s.fields.len() == s.columns.len()
    &&& mask_fits(s.nulls, s.len)
    &&& forall|i: int|
        0 <= i < s.columns.len() ==> {
            &&& column_len(#[trigger] s.columns[i]) == s.len
            &&& s.fields[i].data_type == column_type(s.columns[i])
            &&& column_wf(s.columns[i])
        }
}

/// Whether a column is laid open: where its type is a struct, a list or a map, its children
/// are columns of their own, and so on below.
pub open spec fn column_laid_open(c: ColumnView) -> bool
    decreases c,
{
    match c {
        ColumnView::Leaf { data_type, .. } => !(data_type is Struct) && !(data_type is List) && !(
        data_type is LargeList) && !(data_type is ListView) && !(data_type is MapOf),
        ColumnView::Struct(s) => struct_laid_open(s),
        ColumnView::List { values, .. } => column_laid_open(*values),
        ColumnView::MapOf { entries, .. } => struct_laid_open(entries),
    }
}

/// Whether each column of a struct is laid open.
pub open spec fn struct_laid_open(s: StructView) -> bool
    decreases s,
{
    forall|i: int| 0 <= i < s.columns.len() ==> column_laid_open(#[trigger] s.columns[i])
}

/// Whether a column is no list and holds no list below it.
pub open spec fn column_list_free(c: ColumnView) -> bool
    decreases c,
{
    match c {
        ColumnView::Leaf { .. } => true,
        ColumnView::Struct(s) => struct_list_free(s),
        ColumnView::List { .. } => false,
        ColumnView::MapOf { entries, .. } => struct_list_free(entries),
    }
}

/// Whether no column of a struct is a list or holds a list below it.
pub open spec fn struct_list_free(s: StructView) -> bool
    decreases s,
{
    forall|i: int| 0 <= i < s.columns.len() ==> column_list_free(#[trigger] s.columns[i])
}

/// Whether the validity masks of a struct and of the columns below it, as far as structs
/// reach, have one bit for each row of the struct.
pub open spec fn masks_aligned(s: StructView) -> bool
    decreases s,
{
    &&& mask_fits(s.nulls, s.len)
    &&& forall|i: int| 0 <= i < s.columns.len() ==> column_aligned(#[trigger] s.columns[i], s.len)
}

/// Whether a column of a struct of `rows` rows has a validity mask of `rows` bits and, where
/// it holds an array, an array of `rows` rows, and so on below it where it is a struct.
pub open spec fn column_aligned(c: ColumnView, rows: nat) -> bool
    decreases c,
{
    match c {
        ColumnView::Struct(s) => s.len == rows && masks_aligned(s),
        ColumnView::Leaf { nulls, buffers, .. } => mask_fits(nulls, rows) && (buffers matches Some(
            array,
        ) ==> array_len(array) == rows),
        _ => mask_fits(column_nulls(c), rows),
    }
}

/// The masks of a well-formed batch are aligned.
pub proof fn lemma_wf_masks_aligned(s: StructView)
    requires
        struct_wf(s),
    ensures
        masks_aligned(s),
    decreases s,
{
    assert forall|i: int| 0 <= i < s.columns.len() implies column_aligned(
        #[trigger] s.columns[i],
        s.len,
    ) by {
        let c = s.columns[i];
        lemma_wf_mask_fits(c);
        match c {
            ColumnView::Struct(t) => {
                lemma_wf_masks_aligned(t);
            },
            _ => {},
        }
    }
}

/// The validity of a well-formed column has one bit for each of its rows.
pub proof fn lemma_wf_mask_fits(c: ColumnView)
    requires
        column_wf(c),
    ensures
        mask_fits(column_nulls(c), column_len(c)),
{
    reveal_with_fuel(column_wf, 2);
}

/// Whether a validity mask has one bit for each of `rows` rows.
pub fn mask_has_len(nulls: &Option<Vec<bool>>, rows: usize) -> (b: bool)
    ensures
        b == mask_fits(mask_view(*nulls), rows as nat),
{
    match nulls {
        Some(bits) => bits.len() == rows,
        None => true,
    }
}

impl Column {
    /// Whether this column of a struct of `rows` rows has a validity mask of `rows` bits,
    /// and so on below it where it is a struct.
    pub fn is_aligned(&self, rows: usize) -> (b: bool)
        ensures
            b == column_aligned(self@, rows as nat),
        decreases self, 0nat,
    {
        match self {
            Column::Struct(s) => s.len == rows && s.has_aligned_masks(),
            Column::Leaf(leaf) => mask_has_len(&leaf.nulls, rows) && match &leaf.values {
                Some(array) => length_of(array) == rows,
                None => true,
            },
            Column::List(list) => mask_has_len(&list.nulls, rows),
            Column::MapOf(map) => mask_has_len(&map.nulls, rows),
        }
    }
}

impl StructColumn {
    /// Whether the validity masks of this struct and of the columns below it, as far as
    /// structs reach, have one bit for each row.
    pub fn has_aligned_masks(&self) -> (b: bool)
        ensures
            b == masks_aligned(self@),
        decreases self, 1nat,
    {
        if !mask_has_len(&self.nulls, self.len) {
            return false;
        }
        let ghost columns = self@.columns;
        let mut i: usize = 0;
        while i < self.columns.len()
            invariant
                i <= self.columns.len(),
                columns == self@.columns,
                columns.len() == self.columns.len(),
                forall|j: int| 0 <= j < i ==> column_aligned(#[trigger] columns[j], self.len as nat),
            decreases self.columns.len() - i,
        {
            assert(columns[i as int] == self.columns[i as int]@);
            if !self.columns[i].is_aligned(self.len) {
                return false;
            }
            i += 1;
        }
        true
    }
}

/// Wraps each item of a vector in `Some`, so that the items can be taken out one by one, in
/// any order.
pub fn into_options<T>(items: Vec<T>) -> (res: Vec<Option<T>>)
    ensures
        res.len() == items.len(),
        forall|i: int| 0 <= i < items.len() ==> #[trigger] res[i] == Some(items[i]),
{
    let ghost whole = items@;
    let mut items = items;
    let mut reversed: Vec<Option<T>> = Vec::new();
    while items.len() > 0
        invariant
            items.len() + reversed.len() == whole.len(),
            items@ == whole.take(items.len() as int),
            forall|i: int|
                0 <= i < reversed.len() ==> #[trigger] reversed[i] == Some(
                    whole[whole.len() - 1 - i],
                ),
        decreases items.len(),
    {
        let item = items.pop();
        reversed.push(item);
    }
    let ghost backwards = reversed@;
    let mut res: Vec<Option<T>> = Vec::new();
    while reversed.len() > 0
        invariant
            backwards.len() == whole.len(),
            reversed.len() + res.len() == whole.len(),
            reversed@ == backwards.take(reversed.len() as int),
            forall|i: int|
                0 <= i < backwards.len() ==> #[trigger] backwards[i] == Some(
                    whole[whole.len() - 1 - i],
                ),
            forall|i: int| 0 <= i < res.len() ==> #[trigger] res[i] == Some(whole[i]),
        decreases reversed.len(),
    {
        let item = reversed.pop();
        match item {
            Some(slot) => {
                res.push(slot);
            },
            None => {},
        }
    }
    res
}

} // verus!
