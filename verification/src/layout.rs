//! How the parts of an encoded question are cut to size and laid out:
//! `[CLS] head [SEP] [MASK] option ... [SEP] state [SEP]`.

use vstd::prelude::*;

use crate::tokens::SpecialIds;

verus! {

/// The most tokens of one option that are kept.
pub const OPTION_TOKENS: usize = 48;

/// The room in the head budget below which the options are cut further.
pub const HEAD_RESERVE: usize = 16;

/// The fewest tokens of the head that are kept.
pub const HEAD_TOKENS: usize = 8;

/// The fewest ids, mark included, to which an option is cut.
pub const ROW_TOKENS: usize = 4;

/// The first `n` elements, or all where there are no more.
pub open spec fn kept<T>(s: Seq<T>, n: int) -> Seq<T> {
    if s.len() <= n {
        s
    } else {
        s.take(n)
    }
}

/// The number of elements in all rows together.
pub open spec fn total(rows: Seq<Seq<u32>>) -> nat
    decreases rows.len(),
{
    if rows.len() == 0 {
        0
    } else {
        total(rows.drop_last()) + rows.last().len()
    }
}

/// All rows, one after the other.
pub open spec fn flat(rows: Seq<Seq<u32>>) -> Seq<u32>
    decreases rows.len(),
{
    if rows.len() == 0 {
        Seq::empty()
    } else {
        flat(rows.drop_last()) + rows.last()
    }
}

/// The options as rows of ids, each behind its mark.
pub open spec fn marked(mask: u32, options: Seq<Seq<u32>>) -> Seq<Seq<u32>> {
    options.map_values(|o: Seq<u32>| seq![mask] + o)
}

/// The length to which rows are cut when they leave the head too little room.
pub open spec fn row_limit(head_max_len: int, n: int) -> int {
    let spare = if head_max_len > HEAD_RESERVE {
        head_max_len - HEAD_RESERVE
    } else {
        0
    };
    let share = spare / (if n > 1 {
        n
    } else {
        1
    });
    if share > ROW_TOKENS {
        share
    } else {
        ROW_TOKENS as int
    }
}

/// The rows as they are laid out: cut where they leave the head too little
/// room.
pub open spec fn fitted(rows: Seq<Seq<u32>>, head_max_len: int) -> Seq<Seq<u32>> {
    if head_max_len - total(rows) < HEAD_RESERVE {
        rows.map_values(|r: Seq<u32>| kept(r, row_limit(head_max_len, rows.len() as int)))
    } else {
        rows
    }
}

/// The head as it is laid out before the given rows. Rows that take more than
/// the whole budget leave it as it is.
pub open spec fn fitted_head(head: Seq<u32>, rows: Seq<Seq<u32>>, head_max_len: int) -> Seq<u32> {
    let budget = head_max_len - total(rows);
    if budget < 0 {
        head
    } else if budget < HEAD_TOKENS {
        kept(head, HEAD_TOKENS as int)
    } else {
        kept(head, budget)
    }
}

/// Everything before the state.
pub open spec fn front(cls: u32, sep: u32, head: Seq<u32>, rows: Seq<Seq<u32>>) -> Seq<u32> {
    seq![cls] + head + seq![sep] + flat(rows) + seq![sep]
}

/// The positions at which the rows begin.
pub open spec fn row_starts(head: Seq<u32>, rows: Seq<Seq<u32>>) -> Seq<int> {
    Seq::new(rows.len(), |i: int| (head.len() + 2 + total(rows.take(i))) as int)
}

/// The part of the state that is kept: its end where the state is a list, else
/// its beginning.
pub open spec fn kept_state(state: Seq<u32>, room: int, truncate_left: bool) -> Seq<u32> {
    if state.len() <= room {
        state
    } else if truncate_left {
        state.skip(state.len() - room)
    } else {
        state.take(room)
    }
}

/// The room for the state behind a front of the given length, with one id left
/// for the last separator.
pub open spec fn state_room(max_len: int, front_len: int) -> int {
    if max_len > front_len + 1 {
        max_len - front_len - 1
    } else {
        0
    }
}

/// An encoded question: its ids, and the positions of the marks of its options.
#[verifier::ext_equal]
pub struct Layout {
    pub ids: Seq<u32>,
    pub markers: Seq<int>,
}

/// The ids and marks of a question whose head, options and state were encoded
/// to the given ids.
pub open spec fn laid_out(
    special: SpecialIds,
    head: Seq<u32>,
    options: Seq<Seq<u32>>,
    state: Seq<u32>,
    max_len: int,
    head_max_len: int,
    truncate_left: bool,
) -> Layout {
    let rows = fitted(marked(special.mask, options), head_max_len);
    let head = fitted_head(head, rows, head_max_len);
    let front = front(special.cls, special.sep, head, rows);
    let room = state_room(max_len, front.len() as int);
    Layout {
        ids: kept(front + kept_state(state, room, truncate_left) + seq![special.sep], max_len),
        markers: row_starts(head, rows).filter(|m: int| m < max_len),
    }
}

/// The rows of a vector of vectors.
pub open spec fn rows_view(rows: Seq<Vec<u32>>) -> Seq<Seq<u32>> {
    rows.map_values(|r: Vec<u32>| r@)
}

/// Positions as plain numbers.
pub open spec fn positions(markers: Seq<usize>) -> Seq<int> {
    markers.map_values(|m: usize| m as int)
}

/// What an encoded question says.
pub open spec fn layout_of(ids: Seq<u32>, markers: Seq<usize>) -> Layout {
    Layout { ids, markers: positions(markers) }
}

/// Adds up the lengths of the rows.
fn row_total(rows: &Vec<Vec<u32>>) -> (r: u128)
    ensures
        r == total(rows_view(rows@)),
{
    let ghost all = rows_view(rows@);
    let mut r: u128 = 0;
    let mut i: usize = 0;
    while i < rows.len()
        invariant
            i <= rows@.len(),
            all == rows_view(rows@),
            r == total(all.take(i as int)),
            r <= i * usize::MAX,
        decreases rows.len() - i,
    {
        assert(all.take(i + 1).drop_last() =~= all.take(i as int));
        assert(r + rows@[i as int]@.len() <= (i + 1) * usize::MAX) by {
            assert(rows@[i as int].len() <= usize::MAX);
            assert((i + 1) * usize::MAX == i * usize::MAX + usize::MAX) by (nonlinear_arith);
        }
        assert((i + 1) * usize::MAX <= usize::MAX * usize::MAX) by (nonlinear_arith)
            requires
                i + 1 <= usize::MAX,
        ;
        assert(usize::MAX * usize::MAX <= u128::MAX) by (nonlinear_arith)
            requires
                usize::MAX <= 0xffff_ffff_ffff_ffff,
        ;
        r = r + rows[i].len() as u128;
        i += 1;
    }
    assert(all.take(i as int) =~= all);
    r
}

/// Appends the elements from position `from` up to, but not including, `to`.
fn push_range(ids: &mut Vec<u32>, more: &[u32], from: usize, to: usize)
    requires
        from <= to <= more@.len(),
    ensures
        final(ids)@ == old(ids)@ + more@.subrange(from as int, to as int),
{
    let mut i: usize = from;
    while i < to
        invariant
            from <= i <= to <= more@.len(),
            ids@ =~= old(ids)@ + more@.subrange(from as int, i as int),
        decreases to - i,
    {
        ids.push(more[i]);
        i += 1;
    }
}

/// Copies the first `n` ids, or all where there are no more.
pub(crate) fn first_ids(ids: &Vec<u32>, n: usize) -> (r: Vec<u32>)
    ensures
        r@ == kept(ids@, n as int),
{
    let mut r: Vec<u32> = Vec::new();
    let to: usize = if ids.len() <= n {
        ids.len()
    } else {
        n
    };
    push_range(&mut r, ids.as_slice(), 0, to);
    assert(r@ =~= kept(ids@, n as int));
    r
}

/// Sets every option behind its mark.
fn mark_rows(mask: u32, options: &Vec<Vec<u32>>) -> (r: Vec<Vec<u32>>)
    ensures
        rows_view(r@) == marked(mask, rows_view(options@)),
{
    let mut r: Vec<Vec<u32>> = Vec::new();
    let mut i: usize = 0;
    while i < options.len()
        invariant
            i <= options@.len(),
            r@.len() == i,
            forall|j: int| 0 <= j < i ==> (#[trigger] r@[j])@ == seq![mask] + options@[j]@,
        decreases options.len() - i,
    {
        let mut row: Vec<u32> = Vec::new();
        row.push(mask);
        push_range(&mut row, options[i].as_slice(), 0, options[i].len());
        assert(row@ =~= seq![mask] + options@[i as int]@);
        r.push(row);
        i += 1;
    }
    assert(rows_view(r@) =~= marked(mask, rows_view(options@)));
    r
}

/// Cuts every row to the given length.
fn cut_rows(rows: &Vec<Vec<u32>>, limit: usize) -> (r: Vec<Vec<u32>>)
    ensures
        rows_view(r@) == rows_view(rows@).map_values(|r: Seq<u32>| kept(r, limit as int)),
{
    let mut r: Vec<Vec<u32>> = Vec::new();
    let mut i: usize = 0;
    while i < rows.len()
        invariant
            i <= rows@.len(),
            r@.len() == i,
            forall|j: int| 0 <= j < i ==> (#[trigger] r@[j])@ == kept(rows@[j]@, limit as int),
        decreases rows.len() - i,
    {
        r.push(first_ids(&rows[i], limit));
        i += 1;
    }
    assert(rows_view(r@) =~= rows_view(rows@).map_values(|r: Seq<u32>| kept(r, limit as int)));
    r
}

/// Cuts the rows where they leave the head too little room.
fn fit_rows(rows: Vec<Vec<u32>>, head_max_len: usize) -> (r: Vec<Vec<u32>>)
    ensures
        rows_view(r@) == fitted(rows_view(rows@), head_max_len as int),
{
    let sum: u128 = row_total(&rows);
    if (head_max_len as u128) < sum || head_max_len as u128 - sum < HEAD_RESERVE as u128 {
        let spare: usize = if head_max_len > HEAD_RESERVE {
            head_max_len - HEAD_RESERVE
        } else {
            0
        };
        let n: usize = if rows.len() > 1 {
            rows.len()
        } else {
            1
        };
        let share: usize = spare / n;
        let limit: usize = if share > ROW_TOKENS {
            share
        } else {
            ROW_TOKENS
        };
        cut_rows(&rows, limit)
    } else {
        rows
    }
}

/// Cuts the head to the room that the rows leave it.
fn fit_head(head: &mut Vec<u32>, rows: &Vec<Vec<u32>>, head_max_len: usize)
    ensures
        final(head)@ == fitted_head(old(head)@, rows_view(rows@), head_max_len as int),
{
    let sum: u128 = row_total(rows);
    if head_max_len as u128 >= sum {
        let budget: u128 = head_max_len as u128 - sum;
        let keep: usize = if budget < HEAD_TOKENS as u128 {
            HEAD_TOKENS
        } else {
            budget as usize
        };
        head.truncate(keep);
        assert(head@ =~= kept(old(head)@, keep as int));
    }
}

/// Lays out the rows behind the head, and notes where each begins.
fn push_rows(ids: &mut Vec<u32>, rows: &Vec<Vec<u32>>) -> (starts: Vec<usize>)
    ensures
        final(ids)@ == old(ids)@ + flat(rows_view(rows@)),
        positions(starts@) == Seq::new(
            rows@.len(),
            |i: int| (old(ids)@.len() + total(rows_view(rows@).take(i))) as int,
        ),
{
    let ghost all = rows_view(rows@);
    let ghost given = ids@;
    let mut starts: Vec<usize> = Vec::new();
    let mut i: usize = 0;
    assert(given + flat(all.take(0)) =~= given);
    while i < rows.len()
        invariant
            i <= rows@.len(),
            all == rows_view(rows@),
            given == old(ids)@,
            ids@ == given + flat(all.take(i as int)),
            ids@.len() == given.len() + total(all.take(i as int)),
            starts@.len() == i,
            forall|j: int|
                0 <= j < i ==> (#[trigger] starts@[j]) == given.len() + total(all.take(j)),
        decreases rows.len() - i,
    {
        assert(all.take(i + 1).drop_last() =~= all.take(i as int));
        assert(all.take(i + 1).last() == rows@[i as int]@);
        starts.push(ids.len());
        let ghost so_far = ids@;
        push_range(ids, rows[i].as_slice(), 0, rows[i].len());
        assert(ids@ =~= so_far + rows@[i as int]@);
        assert(ids@ =~= given + (flat(all.take(i as int)) + rows@[i as int]@));
        i += 1;
    }
    assert(all.take(i as int) =~= all);
    assert(positions(starts@) =~= Seq::new(
        rows@.len(),
        |i: int| (old(ids)@.len() + total(rows_view(rows@).take(i))) as int,
    ));
    starts
}

/// The positions below the given bound.
fn positions_below(starts: &Vec<usize>, bound: usize) -> (r: Vec<usize>)
    ensures
        positions(r@) == positions(starts@).filter(|m: int| m < bound),
{
    let ghost all = positions(starts@);
    let ghost keep = |m: int| m < bound;
    let mut r: Vec<usize> = Vec::new();
    let mut i: usize = 0;
    assert(positions(r@) =~= all.take(0).filter(keep)) by {
        reveal(Seq::filter);
    }
    while i < starts.len()
        invariant
            i <= starts@.len(),
            all == positions(starts@),
            keep == (|m: int| m < bound),
            positions(r@) == all.take(i as int).filter(keep),
        decreases starts.len() - i,
    {
        let ghost so_far = r@;
        proof {
            reveal(Seq::filter);
            assert(all.take(i + 1).drop_last() =~= all.take(i as int));
            assert(all.take(i + 1).last() == starts@[i as int]);
        }
        if starts[i] < bound {
            r.push(starts[i]);
            assert(positions(r@) =~= positions(so_far).push(starts@[i as int] as int));
        }
        i += 1;
    }
    assert(all.take(i as int) =~= all);
    r
}

/// Lays out a question whose head, options and state were encoded to the given
/// ids. The head budget is reckoned in signed machine words.
pub fn assemble_sequence(
    special: &SpecialIds,
    head_ids: Vec<u32>,
    option_ids: &Vec<Vec<u32>>,
    state_ids: &[u32],
    max_len: usize,
    head_max_len: usize,
    truncate_left: bool,
) -> (r: (Vec<u32>, Vec<usize>))
    requires
        head_max_len <= isize::MAX,
    ensures
        layout_of(r.0@, r.1@) == laid_out(
            *special,
            head_ids@,
            rows_view(option_ids@),
            state_ids@,
            max_len as int,
            head_max_len as int,
            truncate_left,
        ),
{
    let rows = fit_rows(mark_rows(special.mask, option_ids), head_max_len);
    let mut head = head_ids;
    fit_head(&mut head, &rows, head_max_len);
    let mut ids: Vec<u32> = Vec::new();
    ids.push(special.cls);
    push_range(&mut ids, head.as_slice(), 0, head.len());
    ids.push(special.sep);
    assert(ids@ =~= seq![special.cls] + head@ + seq![special.sep]);
    let starts = push_rows(&mut ids, &rows);
    ids.push(special.sep);
    let ghost front = front(special.cls, special.sep, head@, rows_view(rows@));
    assert(ids@ =~= front);
    assert(positions(starts@) =~= row_starts(head@, rows_view(rows@)));
    let front_len: usize = ids.len();
    let room: usize = if max_len > front_len && max_len - front_len > 1 {
        max_len - front_len - 1
    } else {
        0
    };
    let len: usize = state_ids.len();
    if len <= room {
        push_range(&mut ids, state_ids, 0, len);
    } else if truncate_left {
        push_range(&mut ids, state_ids, len - room, len);
    } else {
        push_range(&mut ids, state_ids, 0, room);
    }
    assert(ids@ =~= front + kept_state(state_ids@, room as int, truncate_left));
    ids.push(special.sep);
    assert(ids@ =~= front + kept_state(state_ids@, room as int, truncate_left)
        + seq![special.sep]);
    let ghost whole = ids@;
    ids.truncate(max_len);
    assert(ids@ =~= kept(whole, max_len as int));
    let markers = positions_below(&starts, max_len);
    (ids, markers)
}

/// The rows put one after the other are as long as all of them together.
proof fn flat_length(rows: Seq<Seq<u32>>)
    ensures
        flat(rows).len() == total(rows),
    decreases rows.len(),
{
    if rows.len() > 0 {
        flat_length(rows.drop_last());
    }
}

/// Each row stands, whole, where the rows before it end.
proof fn row_in_flat(rows: Seq<Seq<u32>>, i: int)
    requires
        0 <= i < rows.len(),
    ensures
        total(rows.take(i)) + rows[i].len() <= flat(rows).len(),
        flat(rows).subrange(
            total(rows.take(i)) as int,
            total(rows.take(i)) as int + rows[i].len(),
        ) == rows[i],
    decreases rows.len(),
{
    flat_length(rows);
    flat_length(rows.drop_last());
    if i == rows.len() - 1 {
        assert(rows.take(i) =~= rows.drop_last());
        assert(flat(rows).subrange(total(rows.take(i)) as int, flat(rows).len() as int)
            =~= rows[i]);
    } else {
        row_in_flat(rows.drop_last(), i);
        assert(rows.drop_last().take(i) =~= rows.take(i));
        assert(flat(rows).subrange(
            total(rows.take(i)) as int,
            total(rows.take(i)) as int + rows[i].len(),
        ) =~= flat(rows.drop_last()).subrange(
            total(rows.take(i)) as int,
            total(rows.take(i)) as int + rows[i].len(),
        ));
    }
}

/// Later rows begin later.
proof fn starts_increase(rows: Seq<Seq<u32>>, i: int, j: int)
    requires
        0 <= i < j <= rows.len(),
        forall|k: int| 0 <= k < rows.len() ==> (#[trigger] rows[k]).len() > 0,
    ensures
        total(rows.take(i)) < total(rows.take(j)),
    decreases j - i,
{
    assert(rows.take(j).drop_last() =~= rows.take(j - 1));
    assert(rows.take(j).last() == rows[j - 1]);
    if i < j - 1 {
        starts_increase(rows, i, j - 1);
    }
}

/// Every row begins with the mark, also when it is cut.
proof fn rows_begin_with_mask(mask: u32, options: Seq<Seq<u32>>, head_max_len: int)
    ensures
        fitted(marked(mask, options), head_max_len).len() == options.len(),
        forall|i: int|
            0 <= i < options.len() ==> (#[trigger] fitted(
                marked(mask, options),
                head_max_len,
            )[i]).len() > 0 && fitted(marked(mask, options), head_max_len)[i][0] == mask,
{
}

/// Filtering a sequence of numbers keeps those that pass, each from a place in
/// the sequence, in their order.
proof fn filter_keeps(s: Seq<int>, bound: int)
    requires
        forall|i: int, j: int| 0 <= i < j < s.len() ==> s[i] < s[j],
    ensures
        s.filter(|m: int| m < bound).len() <= s.len(),
        s.filter(|m: int| m < bound) == s.take(s.filter(|m: int| m < bound).len() as int),
        forall|i: int|
            0 <= i < s.filter(|m: int| m < bound).len() ==> (#[trigger] s[i]) < bound,
        forall|i: int|
            s.filter(|m: int| m < bound).len() <= i < s.len() ==> (#[trigger] s[i]) >= bound,
    decreases s.len(),
{
    let keep = |m: int| m < bound;
    reveal(Seq::filter);
    if s.len() > 0 {
        let rest = s.drop_last();
        filter_keeps(rest, bound);
        let n = rest.filter(keep).len() as int;
        if s.last() < bound {
            if n < rest.len() {
                assert(rest[n] >= bound);
                assert(s[n] < s[s.len() - 1]);
            }
            assert(rest.take(n) =~= rest);
            assert(s.filter(keep) =~= s);
            assert(s.take(s.len() as int) =~= s);
        } else {
            assert(s.filter(keep) =~= s.take(n));
            assert forall|i: int| n <= i < s.len() implies (#[trigger] s[i]) >= bound by {
                if i < rest.len() {
                    assert(rest[i] >= bound);
                }
            }
        }
    } else {
        assert(s.filter(keep) =~= s);
        assert(s.take(0) =~= s);
    }
}

/// An encoded question is never longer than the model takes.
pub proof fn layout_fits(
    special: SpecialIds,
    head: Seq<u32>,
    options: Seq<Seq<u32>>,
    state: Seq<u32>,
    max_len: nat,
    head_max_len: nat,
    truncate_left: bool,
)
    ensures
        laid_out(
            special,
            head,
            options,
            state,
            max_len as int,
            head_max_len as int,
            truncate_left,
        ).ids.len() <= max_len,
{
}

/// An encoded question begins with `[CLS]`.
pub proof fn layout_begins_with_cls(
    special: SpecialIds,
    head: Seq<u32>,
    options: Seq<Seq<u32>>,
    state: Seq<u32>,
    max_len: nat,
    head_max_len: nat,
    truncate_left: bool,
)
    requires
        max_len > 0,
    ensures
        ({
            let l = laid_out(
                special,
                head,
                options,
                state,
                max_len as int,
                head_max_len as int,
                truncate_left,
            );
            l.ids.len() > 0 && l.ids[0] == special.cls
        }),
{
}

/// The marks of an encoded question are distinct, stand in the order of the
/// options, and each points at a `[MASK]` in the ids.
pub proof fn markers_point_at_masks(
    special: SpecialIds,
    head: Seq<u32>,
    options: Seq<Seq<u32>>,
    state: Seq<u32>,
    max_len: nat,
    head_max_len: nat,
    truncate_left: bool,
)
    ensures
        ({
            let l = laid_out(
                special,
                head,
                options,
                state,
                max_len as int,
                head_max_len as int,
                truncate_left,
            );
            &&& l.markers.len() <= options.len()
            &&& forall|i: int|
                0 <= i < l.markers.len() ==> 0 < (#[trigger] l.markers[i]) < l.ids.len()
                    && l.ids[l.markers[i]] == special.mask
            &&& forall|i: int, j: int|
                0 <= i < j < l.markers.len() ==> l.markers[i] < l.markers[j]
        }),
{
    let rows = fitted(marked(special.mask, options), head_max_len as int);
    let cut = fitted_head(head, rows, head_max_len as int);
    let starts = row_starts(cut, rows);
    let l = laid_out(
        special,
        head,
        options,
        state,
        max_len as int,
        head_max_len as int,
        truncate_left,
    );
    rows_begin_with_mask(special.mask, options, head_max_len as int);
    assert forall|i: int, j: int| 0 <= i < j < starts.len() implies starts[i] < starts[j] by {
        starts_increase(rows, i, j);
    }
    filter_keeps(starts, max_len as int);
    let before = front(special.cls, special.sep, cut, rows);
    let whole = before + kept_state(
        state,
        state_room(max_len as int, before.len() as int),
        truncate_left,
    ) + seq![special.sep];
    assert forall|i: int| 0 <= i < l.markers.len() implies 0 < (#[trigger] l.markers[i])
        < l.ids.len() && l.ids[l.markers[i]] == special.mask by {
        assert(l.markers[i] == starts[i]);
        row_in_flat(rows, i);
        let at = total(rows.take(i)) as int;
        assert(flat(rows).subrange(at, at + rows[i].len())[0] == rows[i][0]);
        assert(flat(rows)[at] == special.mask);
        assert(before[starts[i]] == flat(rows)[at]);
        assert(whole[starts[i]] == special.mask);
        assert(starts[i] < whole.len());
    }
}

/// All options of an encoded question have their mark exactly if the last of
/// them begins within the length that the model takes.
pub proof fn every_option_is_marked(
    special: SpecialIds,
    head: Seq<u32>,
    options: Seq<Seq<u32>>,
    state: Seq<u32>,
    max_len: nat,
    head_max_len: nat,
    truncate_left: bool,
)
    ensures
        ({
            let rows = fitted(marked(special.mask, options), head_max_len as int);
            let cut = fitted_head(head, rows, head_max_len as int);
            laid_out(
                special,
                head,
                options,
                state,
                max_len as int,
                head_max_len as int,
                truncate_left,
            ).markers.len() == options.len() <==> (options.len() > 0 ==> cut.len() + 2 + total(
                rows.drop_last(),
            ) < max_len)
        }),
{
    let rows = fitted(marked(special.mask, options), head_max_len as int);
    let cut = fitted_head(head, rows, head_max_len as int);
    let starts = row_starts(cut, rows);
    rows_begin_with_mask(special.mask, options, head_max_len as int);
    assert forall|i: int, j: int| 0 <= i < j < starts.len() implies starts[i] < starts[j] by {
        starts_increase(rows, i, j);
    }
    filter_keeps(starts, max_len as int);
    if options.len() > 0 {
        assert(rows.drop_last() =~= rows.take(rows.len() - 1));
        assert(starts[starts.len() - 1] == cut.len() + 2 + total(rows.drop_last()));
    }
}

/// Where everything before the state fits, nothing but the head, the options
/// and the state is cut: the ids are `[CLS]`, the head, `[SEP]`, the options,
/// `[SEP]`, the kept part of the state and `[SEP]`, each option has its mark,
/// and the ids of each option stand behind its mark.
pub proof fn layout_is_whole(
    special: SpecialIds,
    head: Seq<u32>,
    options: Seq<Seq<u32>>,
    state: Seq<u32>,
    max_len: nat,
    head_max_len: nat,
    truncate_left: bool,
)
    requires
        ({
            let rows = fitted(marked(special.mask, options), head_max_len as int);
            let cut = fitted_head(head, rows, head_max_len as int);
            front(special.cls, special.sep, cut, rows).len() < max_len
        }),
    ensures
        ({
            let rows = fitted(marked(special.mask, options), head_max_len as int);
            let cut = fitted_head(head, rows, head_max_len as int);
            let before = front(special.cls, special.sep, cut, rows);
            let room = max_len - before.len() - 1;
            let l = laid_out(
                special,
                head,
                options,
                state,
                max_len as int,
                head_max_len as int,
                truncate_left,
            );
            &&& l.ids == before + kept_state(state, room, truncate_left) + seq![special.sep]
            &&& l.markers.len() == options.len()
            &&& forall|i: int|
                0 <= i < options.len() ==> l.ids.subrange(
                    #[trigger] l.markers[i],
                    l.markers[i] + rows[i].len(),
                ) == rows[i]
        }),
{
    let rows = fitted(marked(special.mask, options), head_max_len as int);
    let cut = fitted_head(head, rows, head_max_len as int);
    let before = front(special.cls, special.sep, cut, rows);
    let starts = row_starts(cut, rows);
    let l = laid_out(
        special,
        head,
        options,
        state,
        max_len as int,
        head_max_len as int,
        truncate_left,
    );
    rows_begin_with_mask(special.mask, options, head_max_len as int);
    assert forall|i: int, j: int| 0 <= i < j < starts.len() implies starts[i] < starts[j] by {
        starts_increase(rows, i, j);
    }
    filter_keeps(starts, max_len as int);
    assert forall|i: int| 0 <= i < options.len() implies starts[i] + rows[i].len() < before.len()
        && before.subrange(#[trigger] starts[i], starts[i] + rows[i].len()) == rows[i] by {
        row_in_flat(rows, i);
        let at = total(rows.take(i)) as int;
        assert(before.subrange(starts[i], starts[i] + rows[i].len()) =~= flat(rows).subrange(
            at,
            at + rows[i].len(),
        ));
    }
    let n = l.markers.len() as int;
    if n < starts.len() {
        assert(starts[n] + rows[n].len() < before.len());
    }
    assert(l.markers =~= starts);
    assert forall|i: int| 0 <= i < options.len() implies l.ids.subrange(
        #[trigger] l.markers[i],
        l.markers[i] + rows[i].len(),
    ) == rows[i] by {
        assert(before.subrange(starts[i], starts[i] + rows[i].len()) == rows[i]);
        assert(l.ids.subrange(starts[i], starts[i] + rows[i].len()) =~= before.subrange(
            starts[i],
            starts[i] + rows[i].len(),
        ));
    }
}

/// An encoded question that is shorter than the model takes was not cut at its
/// end: it ends with `[SEP]`.
pub proof fn layout_ends_with_sep(
    special: SpecialIds,
    head: Seq<u32>,
    options: Seq<Seq<u32>>,
    state: Seq<u32>,
    max_len: nat,
    head_max_len: nat,
    truncate_left: bool,
)
    ensures
        ({
            let l = laid_out(
                special,
                head,
                options,
                state,
                max_len as int,
                head_max_len as int,
                truncate_left,
            );
            l.ids.len() < max_len ==> l.ids.len() > 0 && l.ids.last() == special.sep
        }),
{
}

/// Rows of bounded length are bounded together.
proof fn total_is_bounded(rows: Seq<Seq<u32>>, limit: nat)
    requires
        forall|i: int| 0 <= i < rows.len() ==> (#[trigger] rows[i]).len() <= limit,
    ensures
        total(rows) <= rows.len() * limit,
    decreases rows.len(),
{
    if rows.len() > 0 {
        let rest = rows.drop_last();
        total_is_bounded(rest, limit);
        assert(rows[rows.len() - 1].len() <= limit);
        assert(rows.len() * limit == rest.len() * limit + limit) by (nonlinear_arith)
            requires
                rows.len() == rest.len() + 1,
        ;
    } else {
        assert(rows.len() * limit == 0) by (nonlinear_arith)
            requires
                rows.len() == 0,
        ;
    }
}

/// Where the head budget has room for the smallest share of the head and of each
/// option, the options as they are laid out leave the head its smallest share.
pub proof fn options_leave_room(mask: u32, options: Seq<Seq<u32>>, head_max_len: nat)
    requires
        ROW_TOKENS * options.len() + HEAD_TOKENS <= head_max_len,
    ensures
        total(fitted(marked(mask, options), head_max_len as int)) + HEAD_TOKENS <= head_max_len,
{
    let rows = marked(mask, options);
    let n = rows.len() as int;
    if head_max_len - total(rows) < HEAD_RESERVE {
        let limit = row_limit(head_max_len as int, n);
        let cut = fitted(rows, head_max_len as int);
        total_is_bounded(cut, limit as nat);
        assert(cut.len() == n);
        if n == 0 {
            assert(cut.len() * limit == 0) by (nonlinear_arith)
                requires
                    cut.len() == 0,
            ;
        } else if limit > ROW_TOKENS {
            let spare = head_max_len - HEAD_RESERVE;
            assert(n * (spare / n) <= spare) by (nonlinear_arith)
                requires
                    n > 0,
                    spare >= 0,
            ;
            if n == 1 {
                assert(spare / 1 == spare);
            }
            assert(limit == spare / n);
        } else {
            assert(n * limit == ROW_TOKENS * n) by (nonlinear_arith)
                requires
                    limit == ROW_TOKENS,
            ;
        }
    }
}

/// Where the head budget has room for the smallest share of the head and of each
/// option, head and options together keep to the budget.
pub proof fn head_budget_is_kept(
    mask: u32,
    head: Seq<u32>,
    options: Seq<Seq<u32>>,
    head_max_len: nat,
)
    requires
        ROW_TOKENS * options.len() + HEAD_TOKENS <= head_max_len,
    ensures
        ({
            let rows = fitted(marked(mask, options), head_max_len as int);
            fitted_head(head, rows, head_max_len as int).len() + total(rows) <= head_max_len
        }),
{
    options_leave_room(mask, options, head_max_len);
}

/// Where the head budget has room for the smallest share of the head and of each
/// option, and the model takes two ids more than the budget, every option has its
/// mark.
pub proof fn roomy_options_are_marked(
    special: SpecialIds,
    head: Seq<u32>,
    options: Seq<Seq<u32>>,
    state: Seq<u32>,
    max_len: nat,
    head_max_len: nat,
    truncate_left: bool,
)
    requires
        ROW_TOKENS * options.len() + HEAD_TOKENS <= head_max_len,
        head_max_len + 2 <= max_len,
    ensures
        laid_out(
            special,
            head,
            options,
            state,
            max_len as int,
            head_max_len as int,
            truncate_left,
        ).markers.len() == options.len(),
{
    let rows = fitted(marked(special.mask, options), head_max_len as int);
    head_budget_is_kept(special.mask, head, options, head_max_len);
    rows_begin_with_mask(special.mask, options, head_max_len as int);
    every_option_is_marked(special, head, options, state, max_len, head_max_len, truncate_left);
    if options.len() > 0 {
        assert(rows[rows.len() - 1].len() > 0);
    }
}

/// Whether one layout is the other cut short: the marks that are left are those
/// within the smaller length, everything before the state stays in its place, and
/// the state loses its beginning where its end is kept, else its end. The last
/// separator follows what is left of the state.
pub open spec fn is_cut_from(
    short: Layout,
    long: Layout,
    front_len: int,
    max_len: int,
    truncate_left: bool,
) -> bool {
    &&& short.ids.len() <= long.ids.len()
    &&& short.markers.len() <= long.markers.len()
    &&& short.markers == long.markers.take(short.markers.len() as int)
    &&& forall|i: int|
        0 <= i < short.markers.len() ==> (#[trigger] long.markers[i]) < max_len
    &&& forall|i: int|
        short.markers.len() <= i < long.markers.len() ==> (#[trigger] long.markers[i]) >= max_len
    &&& forall|i: int|
        0 <= i < front_len && i < short.ids.len() ==> (#[trigger] short.ids[i]) == long.ids[i]
    &&& truncate_left && front_len < short.ids.len() ==> short.ids.skip(front_len)
        == long.ids.skip(long.ids.len() - (short.ids.len() - front_len))
    &&& !truncate_left ==> forall|i: int|
        0 <= i < short.ids.len() - 1 ==> (#[trigger] short.ids[i]) == long.ids[i]
}

/// A smaller length that the model takes only cuts an encoded question short.
pub proof fn smaller_lengths_cut_short(
    special: SpecialIds,
    head: Seq<u32>,
    options: Seq<Seq<u32>>,
    state: Seq<u32>,
    smaller: nat,
    larger: nat,
    head_max_len: nat,
    truncate_left: bool,
)
    requires
        smaller <= larger,
    ensures
        ({
            let rows = fitted(marked(special.mask, options), head_max_len as int);
            let cut = fitted_head(head, rows, head_max_len as int);
            is_cut_from(
                laid_out(
                    special,
                    head,
                    options,
                    state,
                    smaller as int,
                    head_max_len as int,
                    truncate_left,
                ),
                laid_out(
                    special,
                    head,
                    options,
                    state,
                    larger as int,
                    head_max_len as int,
                    truncate_left,
                ),
                front(special.cls, special.sep, cut, rows).len() as int,
                smaller as int,
                truncate_left,
            )
        }),
{
    let rows = fitted(marked(special.mask, options), head_max_len as int);
    let cut = fitted_head(head, rows, head_max_len as int);
    let starts = row_starts(cut, rows);
    let before = front(special.cls, special.sep, cut, rows);
    let short = laid_out(
        special,
        head,
        options,
        state,
        smaller as int,
        head_max_len as int,
        truncate_left,
    );
    let long = laid_out(
        special,
        head,
        options,
        state,
        larger as int,
        head_max_len as int,
        truncate_left,
    );
    rows_begin_with_mask(special.mask, options, head_max_len as int);
    assert forall|i: int, j: int| 0 <= i < j < starts.len() implies starts[i] < starts[j] by {
        starts_increase(rows, i, j);
    }
    filter_keeps(starts, smaller as int);
    filter_keeps(starts, larger as int);
    let n = short.markers.len() as int;
    let m = long.markers.len() as int;
    if m < n {
        assert(starts[m] < smaller && starts[m] >= larger);
    }
    assert(short.markers =~= long.markers.take(n));
    assert forall|i: int| 0 <= i < n implies (#[trigger] long.markers[i]) < smaller by {
        assert(long.markers[i] == starts[i]);
    }
    assert forall|i: int| n <= i < m implies (#[trigger] long.markers[i]) >= smaller by {
        assert(long.markers[i] == starts[i]);
    }
    let few = kept_state(state, state_room(smaller as int, before.len() as int), truncate_left);
    let many = kept_state(state, state_room(larger as int, before.len() as int), truncate_left);
    if before.len() < smaller {
        assert(short.ids == before + few + seq![special.sep]);
        assert(long.ids == before + many + seq![special.sep]);
        if truncate_left {
            assert(short.ids.skip(before.len() as int) =~= few + seq![special.sep]);
            assert(few =~= many.skip(many.len() - few.len()));
            assert(long.ids.skip(long.ids.len() - (short.ids.len() - before.len())) =~= few
                + seq![special.sep]);
        } else {
            assert(few =~= many.take(few.len() as int));
        }
    }
}

/// A mark in rows that have it only as their first element stands where a row
/// begins.
proof fn masks_begin_rows(mask: u32, rows: Seq<Seq<u32>>, at: int) -> (i: int)
    requires
        forall|k: int, p: int|
            0 <= k < rows.len() && 0 < p < rows[k].len() ==> #[trigger] rows[k][p] != mask,
        0 <= at < flat(rows).len(),
        flat(rows)[at] == mask,
    ensures
        0 <= i < rows.len(),
        at == total(rows.take(i)),
    decreases rows.len(),
{
    let rest = rows.drop_last();
    let last = rows.len() - 1;
    flat_length(rest);
    assert(rows.take(last) =~= rest);
    if at < flat(rest).len() {
        assert forall|k: int, p: int| 0 <= k < rest.len() && 0 < p < rest[k].len() implies
            #[trigger] rest[k][p] != mask by {
            assert(rest[k][p] == rows[k][p]);
        }
        let i = masks_begin_rows(mask, rest, at);
        assert(rest.take(i) =~= rows.take(i));
        i
    } else {
        assert(flat(rows)[at] == rows[last][at - flat(rest).len()]);
        last
    }
}

/// Where `[MASK]` is neither `[CLS]` nor `[SEP]` and stands in no encoded text,
/// it stands in an encoded question only where the marks point.
pub proof fn masks_stand_at_markers(
    special: SpecialIds,
    head: Seq<u32>,
    options: Seq<Seq<u32>>,
    state: Seq<u32>,
    max_len: nat,
    head_max_len: nat,
    truncate_left: bool,
    at: int,
)
    requires
        special.cls != special.mask,
        special.sep != special.mask,
        !head.contains(special.mask),
        forall|i: int| 0 <= i < options.len() ==> !(#[trigger] options[i]).contains(special.mask),
        !state.contains(special.mask),
        ({
            let ids = laid_out(
                special,
                head,
                options,
                state,
                max_len as int,
                head_max_len as int,
                truncate_left,
            ).ids;
            0 <= at < ids.len() && ids[at] == special.mask
        }),
    ensures
        laid_out(
            special,
            head,
            options,
            state,
            max_len as int,
            head_max_len as int,
            truncate_left,
        ).markers.contains(at),
{
    let mask = special.mask;
    let rows = fitted(marked(mask, options), head_max_len as int);
    let cut = fitted_head(head, rows, head_max_len as int);
    let starts = row_starts(cut, rows);
    let before = front(special.cls, special.sep, cut, rows);
    let rest = kept_state(
        state,
        state_room(max_len as int, before.len() as int),
        truncate_left,
    );
    let l = laid_out(
        special,
        head,
        options,
        state,
        max_len as int,
        head_max_len as int,
        truncate_left,
    );
    rows_begin_with_mask(mask, options, head_max_len as int);
    assert forall|i: int, j: int| 0 <= i < j < starts.len() implies starts[i] < starts[j] by {
        starts_increase(rows, i, j);
    }
    filter_keeps(starts, max_len as int);
    assert forall|k: int, p: int| 0 <= k < rows.len() && 0 < p < rows[k].len() implies
        #[trigger] rows[k][p] != mask by {
        assert(rows[k][p] == options[k][p - 1]);
        assert(!options[k].contains(mask));
    }
    assert forall|p: int| 0 <= p < cut.len() implies #[trigger] cut[p] != mask by {
        assert(cut[p] == head[p]);
    }
    assert forall|p: int| 0 <= p < rest.len() implies #[trigger] rest[p] != mask by {
        if state.len() > rest.len() && truncate_left {
            assert(rest[p] == state[p + (state.len() - rest.len())]);
        } else {
            assert(rest[p] == state[p]);
        }
    }
    let whole = before + rest + seq![special.sep];
    assert(l.ids[at] == whole[at]);
    let n = flat(rows).len();
    if at >= before.len() {
        if at < before.len() + rest.len() {
            assert(whole[at] == rest[at - before.len()]);
        }
    } else if at == 0 {
        assert(whole[at] == special.cls);
    } else if at < 1 + cut.len() {
        assert(whole[at] == cut[at - 1]);
    } else if at == 1 + cut.len() {
        assert(whole[at] == special.sep);
    } else if at == 2 + cut.len() + n {
        assert(whole[at] == special.sep);
    } else {
        let p = at - 2 - cut.len();
        assert(whole[at] == flat(rows)[p]);
        let i = masks_begin_rows(mask, rows, p);
        assert(starts[i] == at);
        assert(l.markers[i] == at);
    }
}

/// What is kept of a state is kept of what was kept with more room.
proof fn kept_states_nest(state: Seq<u32>, room: int, more: int, truncate_left: bool)
    requires
        0 <= room <= more,
    ensures
        kept_state(kept_state(state, more, truncate_left), room, truncate_left) == kept_state(
            state,
            room,
            truncate_left,
        ),
{
    let kept = kept_state(state, more, truncate_left);
    assert(kept_state(kept, room, truncate_left) =~= kept_state(state, room, truncate_left));
}

/// States that have the same end, where the end is kept, or the same beginning,
/// where that is kept, in the length that the model takes are laid out alike.
pub proof fn kept_ends_are_laid_out_alike(
    special: SpecialIds,
    head: Seq<u32>,
    options: Seq<Seq<u32>>,
    one: Seq<u32>,
    other: Seq<u32>,
    max_len: nat,
    head_max_len: nat,
    truncate_left: bool,
)
    requires
        kept_state(one, max_len as int, truncate_left) == kept_state(
            other,
            max_len as int,
            truncate_left,
        ),
    ensures
        laid_out(
            special,
            head,
            options,
            one,
            max_len as int,
            head_max_len as int,
            truncate_left,
        ) == laid_out(
            special,
            head,
            options,
            other,
            max_len as int,
            head_max_len as int,
            truncate_left,
        ),
{
    let rows = fitted(marked(special.mask, options), head_max_len as int);
    let cut = fitted_head(head, rows, head_max_len as int);
    let before = front(special.cls, special.sep, cut, rows);
    let room = state_room(max_len as int, before.len() as int);
    kept_states_nest(one, room, max_len as int, truncate_left);
    kept_states_nest(other, room, max_len as int, truncate_left);
}

/// The sum of numbers.
pub open spec fn sum(numbers: Seq<int>) -> int
    decreases numbers.len(),
{
    if numbers.len() == 0 {
        0
    } else {
        sum(numbers.drop_last()) + numbers.last()
    }
}

/// The rows up to one of them take as many ids as the sum of their lengths.
proof fn totals_are_sums(rows: Seq<Seq<u32>>, widths: Seq<int>, i: int)
    requires
        widths.len() == rows.len(),
        forall|k: int| 0 <= k < rows.len() ==> (#[trigger] rows[k]).len() == widths[k],
        0 <= i <= rows.len(),
    ensures
        total(rows.take(i)) == sum(widths.take(i)),
    decreases i,
{
    if i > 0 {
        totals_are_sums(rows, widths, i - 1);
        assert(rows.take(i).drop_last() =~= rows.take(i - 1));
        assert(widths.take(i).drop_last() =~= widths.take(i - 1));
        assert(rows[i - 1].len() == widths[i - 1]);
    }
}

/// The rows as they are laid out have the given widths, and hold the beginnings of
/// the options behind their marks.
proof fn rows_have_widths(
    mask: u32,
    options: Seq<Seq<u32>>,
    head_max_len: nat,
    whole: Seq<int>,
    widths: Seq<int>,
)
    requires
        whole.len() == options.len(),
        forall|k: int| 0 <= k < options.len() ==> (#[trigger] whole[k]) == 1 + options[k].len(),
        widths.len() == options.len(),
        sum(whole) + 16 <= head_max_len ==> widths == whole,
        sum(whole) + 16 > head_max_len ==> forall|k: int|
            0 <= k < options.len() ==> (#[trigger] widths[k]) == {
                let spare = if head_max_len > 16 {
                    head_max_len - 16
                } else {
                    0
                };
                let share = spare / (if options.len() > 1 {
                    options.len() as int
                } else {
                    1
                });
                let limit = if share > 4 {
                    share
                } else {
                    4
                };
                if whole[k] < limit {
                    whole[k]
                } else {
                    limit
                }
            },
    ensures
        ({
            let rows = fitted(marked(mask, options), head_max_len as int);
            &&& rows.len() == options.len()
            &&& forall|k: int|
                0 <= k < options.len() ==> 0 < (#[trigger] rows[k]).len() == widths[k] <= 1
                    + options[k].len()
            &&& forall|k: int, j: int|
                0 <= k < options.len() && 0 <= j < widths[k] ==> #[trigger] rows[k][j] == if j
                    == 0 {
                    mask
                } else {
                    options[k][j - 1]
                }
        }),
{
    let all = marked(mask, options);
    let rows = fitted(all, head_max_len as int);
    assert forall|k: int| 0 <= k < all.len() implies (#[trigger] all[k]).len() == whole[k] by {
        assert(all[k] == seq![mask] + options[k]);
    }
    totals_are_sums(all, whole, all.len() as int);
    assert(all.take(all.len() as int) =~= all);
    assert(whole.take(whole.len() as int) =~= whole);
    let limit = row_limit(head_max_len as int, all.len() as int);
    assert forall|k: int| 0 <= k < options.len() implies 0 < (#[trigger] rows[k]).len()
        == widths[k] <= 1 + options[k].len() by {
        assert(all[k].len() == whole[k]);
        assert(whole[k] == 1 + options[k].len());
        if sum(whole) + 16 > head_max_len {
            assert(rows[k] == kept(all[k], limit));
            assert(widths[k] == if whole[k] < limit {
                whole[k]
            } else {
                limit
            });
        } else {
            assert(rows[k] == all[k]);
        }
    }
    assert forall|k: int, j: int| 0 <= k < options.len() && 0 <= j < widths[k] implies
        #[trigger] rows[k][j] == if j == 0 {
        mask
    } else {
        options[k][j - 1]
    } by {
        assert(rows[k].len() == widths[k]);
        assert(all[k] == seq![mask] + options[k]);
        assert(rows[k][j] == all[k][j]);
    }
}

/// Where everything stands in ids that are made of a head, of rows and of a state.
proof fn rows_in_place(
    special: SpecialIds,
    head: Seq<u32>,
    rows: Seq<Seq<u32>>,
    state: Seq<u32>,
    max_len: nat,
    truncate_left: bool,
    p: int,
    i: int,
    j: int,
)
    requires
        forall|k: int| 0 <= k < rows.len() ==> (#[trigger] rows[k]).len() > 0,
    ensures
        ({
            let before = head.len() as int + 3 + total(rows);
            let start = head.len() as int + 2 + total(rows.take(i));
            let room = if max_len > before + 1 {
                max_len - before - 1
            } else {
                0
            };
            let stay = if state.len() < room {
                state.len() as int
            } else {
                room
            };
            let front = front(special.cls, special.sep, head, rows);
            let ids = kept(
                front + kept_state(
                    state,
                    state_room(max_len as int, front.len() as int),
                    truncate_left,
                ) + seq![special.sep],
                max_len as int,
            );
            let markers = row_starts(head, rows).filter(|m: int| m < max_len);
            &&& ids.len() == if before + stay + 1 < max_len {
                before + stay + 1
            } else {
                max_len as int
            }
            &&& max_len > 0 ==> ids[0] == special.cls
            &&& 0 <= p < head.len() && 1 + p < max_len ==> ids[1 + p] == head[p]
            &&& head.len() + 1 < max_len ==> ids[head.len() as int + 1] == special.sep
            &&& 0 <= i < rows.len() && 0 <= j < rows[i].len() ==> start + j < before - 1 && (start
                + j < max_len ==> ids[start + j] == rows[i][j])
            &&& before - 1 < max_len ==> ids[before - 1] == special.sep
            &&& 0 <= p < stay && truncate_left ==> ids[before + p] == state[state.len() - stay + p]
            &&& 0 <= p < stay && !truncate_left ==> ids[before + p] == state[p]
            &&& before + stay < max_len ==> ids[before + stay] == special.sep
            &&& markers.len() <= rows.len()
            &&& 0 <= i < rows.len() ==> (i < markers.len() <==> start < max_len)
            &&& 0 <= i < markers.len() ==> markers[i] == start
        }),
{
    let starts = row_starts(head, rows);
    let before = front(special.cls, special.sep, head, rows);
    flat_length(rows);
    assert(before.len() == head.len() + 3 + total(rows));
    let rest = kept_state(
        state,
        state_room(max_len as int, before.len() as int),
        truncate_left,
    );
    let all = before + rest + seq![special.sep];
    let ids = kept(all, max_len as int);
    assert forall|k: int| 0 <= k < ids.len() implies (#[trigger] ids[k]) == all[k] by {}
    assert forall|a: int, b: int| 0 <= a < b < starts.len() implies starts[a] < starts[b] by {
        starts_increase(rows, a, b);
    }
    filter_keeps(starts, max_len as int);
    if 0 <= i < rows.len() {
        assert(starts[i] == head.len() + 2 + total(rows.take(i)));
        row_in_flat(rows, i);
        if 0 <= j < rows[i].len() {
            let at = total(rows.take(i)) as int;
            assert(flat(rows).subrange(at, at + rows[i].len())[j] == rows[i][j]);
            assert(flat(rows)[at + j] == rows[i][j]);
            assert(before[starts[i] + j] == flat(rows)[at + j]);
            assert(all[starts[i] + j] == rows[i][j]);
        }
    }
    if 0 <= p < head.len() {
        assert(before[1 + p] == head[p]);
        assert(all[1 + p] == head[p]);
    }
    assert(all[0] == special.cls);
    assert(before[head.len() as int + 1] == special.sep);
    assert(before[before.len() - 1] == special.sep);
    assert(all[before.len() - 1] == special.sep);
    if 0 <= p < rest.len() {
        assert(all[before.len() + p] == rest[p]);
    }
    assert(all[all.len() - 1] == special.sep);
}

/// An encoded question in full. The options are laid out whole if they leave at
/// least sixteen ids of the head budget, and are else cut to an equal share of what
/// is over sixteen, at least four ids with the mark. The head gets what they leave,
/// at least eight ids, and is not cut if they leave less than nothing. The state
/// gets the rest up to the last `[SEP]`, and loses its beginning where its end is
/// kept, else its end. What is over the length that the model takes is cut off. The
/// last three parameters are any place in the head or the state, an option, and a
/// place in the option.
pub proof fn layout_in_full(
    special: SpecialIds,
    head: Seq<u32>,
    options: Seq<Seq<u32>>,
    state: Seq<u32>,
    max_len: nat,
    head_max_len: nat,
    truncate_left: bool,
    whole: Seq<int>,
    widths: Seq<int>,
    keep: int,
    p: int,
    i: int,
    j: int,
)
    requires
        whole.len() == options.len(),
        forall|k: int| 0 <= k < options.len() ==> (#[trigger] whole[k]) == 1 + options[k].len(),
        widths.len() == options.len(),
        sum(whole) + 16 <= head_max_len ==> widths == whole,
        sum(whole) + 16 > head_max_len ==> forall|k: int|
            0 <= k < options.len() ==> (#[trigger] widths[k]) == {
                let spare = if head_max_len > 16 {
                    head_max_len - 16
                } else {
                    0
                };
                let share = spare / (if options.len() > 1 {
                    options.len() as int
                } else {
                    1
                });
                let limit = if share > 4 {
                    share
                } else {
                    4
                };
                if whole[k] < limit {
                    whole[k]
                } else {
                    limit
                }
            },
        ({
            let left = head_max_len - sum(widths);
            let most = if left < 0 {
                head.len() as int
            } else if left < 8 {
                8
            } else {
                left
            };
            keep == if head.len() < most {
                head.len() as int
            } else {
                most
            }
        }),
    ensures
        ({
            let l = laid_out(
                special,
                head,
                options,
                state,
                max_len as int,
                head_max_len as int,
                truncate_left,
            );
            let start = keep + 2 + sum(widths.take(i));
            let before = keep + 3 + sum(widths);
            let room = if max_len > before + 1 {
                max_len - before - 1
            } else {
                0
            };
            let stay = if state.len() < room {
                state.len() as int
            } else {
                room
            };
            &&& l.ids.len() == if before + stay + 1 < max_len {
                before + stay + 1
            } else {
                max_len as int
            }
            &&& max_len > 0 ==> l.ids[0] == special.cls
            &&& 0 <= p < keep && 1 + p < max_len ==> l.ids[1 + p] == head[p]
            &&& keep + 1 < max_len ==> l.ids[keep + 1] == special.sep
            &&& 0 <= i < options.len() && 0 <= j < widths[i] ==> start + j < before - 1 && (start
                + j < max_len ==> l.ids[start + j] == if j == 0 {
                special.mask
            } else {
                options[i][j - 1]
            })
            &&& before - 1 < max_len ==> l.ids[before - 1] == special.sep
            &&& 0 <= p < stay && truncate_left ==> l.ids[before + p] == state[state.len() - stay
                + p]
            &&& 0 <= p < stay && !truncate_left ==> l.ids[before + p] == state[p]
            &&& before + stay < max_len ==> l.ids[before + stay] == special.sep
            &&& l.markers.len() <= options.len()
            &&& 0 <= i < options.len() ==> (i < l.markers.len() <==> start < max_len)
            &&& 0 <= i < l.markers.len() ==> l.markers[i] == start
        }),
{
    let mask = special.mask;
    let rows = fitted(marked(mask, options), head_max_len as int);
    rows_have_widths(mask, options, head_max_len, whole, widths);
    totals_are_sums(rows, widths, rows.len() as int);
    assert(rows.take(rows.len() as int) =~= rows);
    assert(widths.take(widths.len() as int) =~= widths);
    let cut = fitted_head(head, rows, head_max_len as int);
    assert(cut.len() == keep);
    rows_in_place(special, cut, rows, state, max_len, truncate_left, p, i, j);
    if 0 <= i < options.len() {
        totals_are_sums(rows, widths, i);
        assert(rows[i].len() == widths[i]);
        if 0 <= j < widths[i] {
            assert(rows[i][j] == if j == 0 {
                mask
            } else {
                options[i][j - 1]
            });
        }
    }
    if 0 <= p < keep {
        assert(cut[p] == head[p]);
    }
}

/// Where the options, each behind its mark, leave at least sixteen ids of the head
/// budget, none of them is cut: the mark of each is followed by all its ids, as far
/// as the length that the model takes goes, and then by the next mark or, behind
/// the last one, by `[SEP]`.
pub proof fn roomy_options_are_whole(
    special: SpecialIds,
    head: Seq<u32>,
    options: Seq<Seq<u32>>,
    state: Seq<u32>,
    max_len: nat,
    head_max_len: nat,
    truncate_left: bool,
    whole: Seq<int>,
    i: int,
    j: int,
)
    requires
        whole.len() == options.len(),
        forall|k: int| 0 <= k < options.len() ==> (#[trigger] whole[k]) == 1 + options[k].len(),
        sum(whole) + 16 <= head_max_len,
        0 <= i < options.len(),
        0 <= j <= options[i].len(),
    ensures
        ({
            let l = laid_out(
                special,
                head,
                options,
                state,
                max_len as int,
                head_max_len as int,
                truncate_left,
            );
            i < l.markers.len() ==> {
                let behind = l.markers[i] + 1 + options[i].len();
                &&& l.markers[i] + j < max_len ==> l.markers[i] + j < l.ids.len() && l.ids[
                l.markers[i] + j] == (seq![special.mask] + options[i])[j]
                &&& i + 1 < options.len() && behind < max_len ==> i + 1 < l.markers.len()
                    && l.markers[i + 1] == behind
                &&& i + 1 == options.len() && behind < max_len ==> l.ids[behind] == special.sep
            }
        }),
{
    let left = head_max_len - sum(whole);
    let keep = if head.len() < left {
        head.len() as int
    } else {
        left
    };
    layout_in_full(
        special,
        head,
        options,
        state,
        max_len,
        head_max_len,
        truncate_left,
        whole,
        whole,
        keep,
        0,
        i,
        j,
    );
    layout_in_full(
        special,
        head,
        options,
        state,
        max_len,
        head_max_len,
        truncate_left,
        whole,
        whole,
        keep,
        0,
        i + 1,
        0,
    );
    assert(whole.take(i + 1).drop_last() =~= whole.take(i));
    assert(whole[i] == 1 + options[i].len());
    assert(whole.take(whole.len() as int) =~= whole);
}

/// A layout says what the ids and the positions are.
pub proof fn layouts_say_what_they_hold(ids: Seq<u32>, markers: Seq<usize>, rows: Seq<Vec<u32>>)
    ensures
        layout_of(ids, markers).ids == ids,
        layout_of(ids, markers).markers.len() == markers.len(),
        forall|i: int|
            0 <= i < markers.len() ==> (#[trigger] layout_of(ids, markers).markers[i])
                == markers[i],
        rows_view(rows).len() == rows.len(),
        forall|i: int| 0 <= i < rows.len() ==> (#[trigger] rows_view(rows)[i]) == rows[i]@,
{
}

} // verus!
