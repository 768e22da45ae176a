//! Encoded questions side by side, padded to one size.

use vstd::prelude::*;

verus! {

/// An encoded question: its ids, the positions of the marks of its options, and
/// the number that stands for its type.
#[derive(Debug)]
pub struct EncodedItem {
    pub ids: Vec<u32>,
    pub markers: Vec<usize>,
    pub qtype: i64,
}

impl Clone for EncodedItem {
    fn clone(&self) -> (r: EncodedItem)
        ensures
            r.ids@ == self.ids@,
            r.markers@ == self.markers@,
            r.qtype == self.qtype,
    {
        EncodedItem { ids: self.ids.clone(), markers: self.markers.clone(), qtype: self.qtype }
    }
}

/// Encoded questions as tables with one row for each question, the rows one
/// after the other: the ids and which of them count, the marks and which of
/// them count, and the types.
#[derive(Debug)]
pub struct Batch {
    pub rows: usize,
    pub width: usize,
    pub options: usize,
    pub input_ids: Vec<u32>,
    pub attention_mask: Vec<u32>,
    pub marker_pos: Vec<i64>,
    pub marker_mask: Vec<u8>,
    pub qtype: Vec<i64>,
}

/// The largest of some lengths, 0 where there are none.
pub open spec fn largest(lengths: Seq<nat>) -> nat
    decreases lengths.len(),
{
    if lengths.len() == 0 {
        0
    } else {
        let rest = largest(lengths.drop_last());
        if lengths.last() > rest {
            lengths.last()
        } else {
            rest
        }
    }
}

/// The most ids that one of the questions has.
pub open spec fn widest(items: Seq<EncodedItem>) -> nat {
    largest(items.map_values(|item: EncodedItem| item.ids@.len()))
}

/// The most marks that one of the questions has.
pub open spec fn most_options(items: Seq<EncodedItem>) -> nat {
    largest(items.map_values(|item: EncodedItem| item.markers@.len()))
}

/// A row filled up to the given width.
pub open spec fn padded<T>(row: Seq<T>, width: nat, pad: T) -> Seq<T> {
    Seq::new(
        width,
        |j: int|
            if j < row.len() {
                row[j]
            } else {
                pad
            },
    )
}

/// One row of a table whose rows stand one after the other.
pub open spec fn row_of<T>(table: Seq<T>, i: int, width: int) -> Seq<T> {
    table.subrange(i * width, (i + 1) * width)
}

/// As many copies of a value as there are elements in a sequence.
pub open spec fn ones<S, T>(s: Seq<S>, one: T) -> Seq<T> {
    Seq::new(s.len(), |j: int| one)
}

/// The positions of marks as the model takes them.
pub open spec fn mark_positions(markers: Seq<usize>) -> Seq<i64> {
    markers.map_values(|m: usize| m as i64)
}

/// None of some lengths is above the largest.
proof fn largest_bounds(lengths: Seq<nat>, i: int)
    requires
        0 <= i < lengths.len(),
    ensures
        lengths[i] <= largest(lengths),
    decreases lengths.len(),
{
    if i < lengths.len() - 1 {
        largest_bounds(lengths.drop_last(), i);
    }
}

/// Where there is a largest length above 0, it is one of the lengths.
proof fn largest_is_one(lengths: Seq<nat>)
    requires
        largest(lengths) > 0,
    ensures
        exists|i: int| 0 <= i < lengths.len() && #[trigger] lengths[i] == largest(lengths),
    decreases lengths.len(),
{
    let rest = lengths.drop_last();
    if lengths.last() > largest(rest) {
        assert(lengths[lengths.len() - 1] == largest(lengths));
    } else {
        largest_is_one(rest);
        let i = choose|i: int| 0 <= i < rest.len() && #[trigger] rest[i] == largest(rest);
        assert(lengths[i] == largest(lengths));
    }
}

/// Where the marks of each question point into its ids, every mark in the tables,
/// filling included, points into a row.
pub proof fn marks_point_into_rows(items: Seq<EncodedItem>, i: int, j: int)
    requires
        forall|a: int, b: int|
            0 <= a < items.len() && 0 <= b < items[a].markers@.len() ==> (
            #[trigger] items[a].markers@[b]) < items[a].ids@.len(),
        widest(items) <= i64::MAX,
        0 <= i < items.len(),
        0 <= j < most_options(items),
    ensures
        0 <= padded(mark_positions(items[i].markers@), most_options(items), 0i64)[j] < widest(
            items,
        ),
{
    let ids = items.map_values(|item: EncodedItem| item.ids@.len());
    let marks = items.map_values(|item: EncodedItem| item.markers@.len());
    if j < items[i].markers@.len() {
        assert(items[i].markers@[j] < items[i].ids@.len());
        largest_bounds(ids, i);
    } else {
        largest_is_one(marks);
        let a = choose|a: int| 0 <= a < marks.len() && #[trigger] marks[a] == largest(marks);
        assert(items[a].markers@[0] < items[a].ids@.len());
        largest_bounds(ids, a);
    }
}

/// A row that is put behind the others is the next row of the table.
proof fn row_appended<T>(table: Seq<T>, row: Seq<T>, i: int, width: int)
    requires
        0 <= i,
        0 <= width,
        table.len() == i * width,
        row.len() == width,
    ensures
        (table + row).len() == (i + 1) * width,
        row_of(table + row, i, width) == row,
        forall|a: int|
            0 <= a < i ==> #[trigger] row_of(table + row, a, width) == row_of(table, a, width),
{
    assert((i + 1) * width == i * width + width) by (nonlinear_arith);
    assert(row_of(table + row, i, width) =~= row);
    assert forall|a: int| 0 <= a < i implies #[trigger] row_of(table + row, a, width) == row_of(
        table,
        a,
        width,
    ) by {
        assert(0 <= a * width <= (a + 1) * width <= i * width) by (nonlinear_arith)
            requires
                0 <= a < i,
                0 <= width,
        ;
        assert(row_of(table + row, a, width) =~= row_of(table, a, width));
    }
}

/// Appends a row, filled up to the given width.
fn push_padded<T: Copy>(table: &mut Vec<T>, row: &Vec<T>, width: usize, pad: T)
    requires
        row@.len() <= width,
    ensures
        final(table)@ == old(table)@ + padded(row@, width as nat, pad),
{
    let ghost given = table@;
    let mut j: usize = 0;
    while j < width
        invariant
            j <= width,
            given == old(table)@,
            table@ =~= given + padded(row@, width as nat, pad).take(j as int),
        decreases width - j,
    {
        if j < row.len() {
            table.push(row[j]);
        } else {
            table.push(pad);
        }
        j += 1;
    }
    assert(padded(row@, width as nat, pad).take(width as int) =~= padded(row@, width as nat, pad));
}

/// A vector with as many copies of a value as asked for.
fn copies<T: Copy>(n: usize, value: T) -> (r: Vec<T>)
    ensures
        r@ == Seq::new(n as nat, |j: int| value),
{
    let mut r: Vec<T> = Vec::new();
    while r.len() < n
        invariant
            r@.len() <= n,
            forall|j: int| 0 <= j < r@.len() ==> r@[j] == value,
        decreases n - r.len(),
    {
        r.push(value);
    }
    assert(r@ =~= Seq::new(n as nat, |j: int| value));
    r
}

/// The positions of marks as the model takes them.
fn marks_of(markers: &Vec<usize>) -> (r: Vec<i64>)
    ensures
        r@ == mark_positions(markers@),
{
    let mut r: Vec<i64> = Vec::new();
    let mut j: usize = 0;
    while j < markers.len()
        invariant
            j <= markers@.len(),
            r@ =~= mark_positions(markers@).take(j as int),
        decreases markers.len() - j,
    {
        r.push(markers[j] as i64);
        j += 1;
    }
    assert(mark_positions(markers@).take(j as int) =~= mark_positions(markers@));
    r
}

/// The widths of the tables that hold the questions.
fn table_widths(items: &Vec<EncodedItem>) -> (r: (usize, usize))
    ensures
        r.0 == widest(items@),
        r.1 == most_options(items@),
{
    let ghost ids = items@.map_values(|item: EncodedItem| item.ids@.len());
    let ghost marks = items@.map_values(|item: EncodedItem| item.markers@.len());
    let mut width: usize = 0;
    let mut options: usize = 0;
    let mut i: usize = 0;
    while i < items.len()
        invariant
            i <= items@.len(),
            ids == items@.map_values(|item: EncodedItem| item.ids@.len()),
            marks == items@.map_values(|item: EncodedItem| item.markers@.len()),
            width == largest(ids.take(i as int)),
            options == largest(marks.take(i as int)),
        decreases items.len() - i,
    {
        assert(ids.take(i + 1).drop_last() =~= ids.take(i as int));
        assert(marks.take(i + 1).drop_last() =~= marks.take(i as int));
        if items[i].ids.len() > width {
            width = items[i].ids.len();
        }
        if items[i].markers.len() > options {
            options = items[i].markers.len();
        }
        i += 1;
    }
    assert(ids.take(i as int) =~= ids);
    assert(marks.take(i as int) =~= marks);
    (width, options)
}

/// Puts encoded questions side by side: each row holds one question, filled up
/// with the pad id, and the masks tell what is question and what is filling.
pub fn collate(items: &Vec<EncodedItem>, pad_id: u32) -> (r: Batch)
    requires
        items@.len() * widest(items@) <= usize::MAX,
        items@.len() * most_options(items@) <= usize::MAX,
    ensures
        r.rows == items@.len(),
        r.width == widest(items@),
        r.options == most_options(items@),
        r.input_ids@.len() == r.rows * r.width,
        r.attention_mask@.len() == r.rows * r.width,
        r.marker_pos@.len() == r.rows * r.options,
        r.marker_mask@.len() == r.rows * r.options,
        r.qtype@ == items@.map_values(|item: EncodedItem| item.qtype),
        forall|i: int|
            0 <= i < items@.len() ==> #[trigger] row_of(r.input_ids@, i, r.width as int) == padded(
                items@[i].ids@,
                r.width as nat,
                pad_id,
            ),
        forall|i: int|
            0 <= i < items@.len() ==> #[trigger] row_of(r.attention_mask@, i, r.width as int)
                == padded(ones(items@[i].ids@, 1u32), r.width as nat, 0u32),
        forall|i: int|
            0 <= i < items@.len() ==> #[trigger] row_of(r.marker_pos@, i, r.options as int)
                == padded(mark_positions(items@[i].markers@), r.options as nat, 0i64),
        forall|i: int|
            0 <= i < items@.len() ==> #[trigger] row_of(r.marker_mask@, i, r.options as int)
                == padded(ones(items@[i].markers@, 1u8), r.options as nat, 0u8),
{
    let (width, options) = table_widths(items);
    let mut input_ids: Vec<u32> = Vec::new();
    let mut attention_mask: Vec<u32> = Vec::new();
    let mut marker_pos: Vec<i64> = Vec::new();
    let mut marker_mask: Vec<u8> = Vec::new();
    let mut qtype: Vec<i64> = Vec::new();
    let mut i: usize = 0;
    while i < items.len()
        invariant
            i <= items@.len(),
            width == widest(items@),
            options == most_options(items@),
            input_ids@.len() == i * width,
            attention_mask@.len() == i * width,
            marker_pos@.len() == i * options,
            marker_mask@.len() == i * options,
            qtype@ =~= items@.map_values(|item: EncodedItem| item.qtype).take(i as int),
            forall|a: int|
                0 <= a < i ==> #[trigger] row_of(input_ids@, a, width as int) == padded(
                    items@[a].ids@,
                    width as nat,
                    pad_id,
                ),
            forall|a: int|
                0 <= a < i ==> #[trigger] row_of(attention_mask@, a, width as int) == padded(
                    ones(items@[a].ids@, 1u32),
                    width as nat,
                    0u32,
                ),
            forall|a: int|
                0 <= a < i ==> #[trigger] row_of(marker_pos@, a, options as int) == padded(
                    mark_positions(items@[a].markers@),
                    options as nat,
                    0i64,
                ),
            forall|a: int|
                0 <= a < i ==> #[trigger] row_of(marker_mask@, a, options as int) == padded(
                    ones(items@[a].markers@, 1u8),
                    options as nat,
                    0u8,
                ),
        decreases items.len() - i,
    {
        let item = &items[i];
        proof {
            largest_bounds(items@.map_values(|item: EncodedItem| item.ids@.len()), i as int);
            largest_bounds(items@.map_values(|item: EncodedItem| item.markers@.len()), i as int);
            row_appended(
                input_ids@,
                padded(item.ids@, width as nat, pad_id),
                i as int,
                width as int,
            );
            row_appended(
                attention_mask@,
                padded(ones(item.ids@, 1u32), width as nat, 0u32),
                i as int,
                width as int,
            );
            row_appended(
                marker_pos@,
                padded(mark_positions(item.markers@), options as nat, 0i64),
                i as int,
                options as int,
            );
            row_appended(
                marker_mask@,
                padded(ones(item.markers@, 1u8), options as nat, 0u8),
                i as int,
                options as int,
            );
        }
        push_padded(&mut input_ids, &item.ids, width, pad_id);
        let counted: Vec<u32> = copies(item.ids.len(), 1u32);
        push_padded(&mut attention_mask, &counted, width, 0u32);
        push_padded(&mut marker_pos, &marks_of(&item.markers), options, 0i64);
        let marked: Vec<u8> = copies(item.markers.len(), 1u8);
        push_padded(&mut marker_mask, &marked, options, 0u8);
        qtype.push(item.qtype);
        i += 1;
    }
    Batch {
        rows: items.len(),
        width,
        options,
        input_ids,
        attention_mask,
        marker_pos,
        marker_mask,
        qtype,
    }
}

/// A table is as wide as its longest row of ids and has as many marks as its row
/// with the most: no row has more, and some row has as many, unless all are empty.
pub proof fn tables_are_as_wide_as_rows(items: Seq<EncodedItem>, i: int)
    ensures
        0 <= i < items.len() ==> items[i].ids@.len() <= widest(items),
        0 <= i < items.len() ==> items[i].markers@.len() <= most_options(items),
        widest(items) > 0 ==> exists|k: int|
            0 <= k < items.len() && (#[trigger] items[k]).ids@.len() == widest(items),
        most_options(items) > 0 ==> exists|k: int|
            0 <= k < items.len() && (#[trigger] items[k]).markers@.len() == most_options(items),
{
    let ids = items.map_values(|item: EncodedItem| item.ids@.len());
    let marks = items.map_values(|item: EncodedItem| item.markers@.len());
    if 0 <= i < items.len() {
        largest_bounds(ids, i);
        largest_bounds(marks, i);
    }
    if widest(items) > 0 {
        largest_is_one(ids);
        let k = choose|k: int| 0 <= k < ids.len() && #[trigger] ids[k] == largest(ids);
        assert(items[k].ids@.len() == widest(items));
    }
    if most_options(items) > 0 {
        largest_is_one(marks);
        let k = choose|k: int| 0 <= k < marks.len() && #[trigger] marks[k] == largest(marks);
        assert(items[k].markers@.len() == most_options(items));
    }
}

/// The rows of a table stand one after the other.
pub proof fn rows_stand_in_order<T>(table: Seq<T>, rows: nat, width: nat, i: int, j: int)
    requires
        table.len() == rows * width,
        0 <= i < rows,
        0 <= j < width,
    ensures
        row_of(table, i, width as int).len() == width,
        row_of(table, i, width as int)[j] == table[i * width + j],
{
    assert(0 <= i * width && (i + 1) * width <= rows * width && (i + 1) * width == i * width
        + width) by (nonlinear_arith)
        requires
            0 <= i < rows,
            0 <= width,
    ;
}

/// A row that is filled up begins with what it held, in its order, and goes on with
/// what it is filled up with.
pub proof fn rows_are_filled_up<T>(row: Seq<T>, width: nat, pad: T, j: int)
    requires
        0 <= j < width,
    ensures
        padded(row, width, pad).len() == width,
        j < row.len() ==> padded(row, width, pad)[j] == row[j],
        row.len() <= j ==> padded(row, width, pad)[j] == pad,
{
}

/// The masks of a table have one where a row holds something, and the marks are the
/// positions that were given.
pub proof fn masks_tell_what_counts(
    ids: Seq<u32>,
    markers: Seq<usize>,
    width: nat,
    options: nat,
    j: int,
)
    ensures
        0 <= j < width ==> padded(ones(ids, 1u32), width, 0u32)[j] == if j < ids.len() {
            1u32
        } else {
            0u32
        },
        0 <= j < options ==> padded(ones(markers, 1u8), options, 0u8)[j] == if j < markers.len() {
            1u8
        } else {
            0u8
        },
        mark_positions(markers).len() == markers.len(),
        0 <= j < markers.len() ==> mark_positions(markers)[j] == markers[j] as i64,
        0 <= j < markers.len() && markers[j] <= i64::MAX ==> mark_positions(markers)[j]
            == markers[j],
{
}

} // verus!
