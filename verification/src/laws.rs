//! What holds of the stored windows across writes and deletions.

use vstd::prelude::*;
use crate::clock::HourMinute;
use crate::commands::stopped;
use crate::ledger::{
    chosen, closed_at, has_id, has_open, lemma_chosen_wf, lemma_next_id_new, lemma_position_of,
    lemma_written_wf, open_after, position_of, recategorized, rows_wf, stored_id,
    upsert_accepts, written, RowFilter,
};
use crate::rollover::{close_all, close_time, closed_by_boundary, pending_closes};
use crate::window::WindowModel;

verus! {

/// No two stored closed windows share a point in time.
pub open spec fn no_overlap(rows: Seq<WindowModel>) -> bool {
    forall|i: int, j: int|
        0 <= i < rows.len() && 0 <= j < rows.len() && i != j ==> !(#[trigger] rows[i]).intersects(
            #[trigger] rows[j],
        )
}

/// At most one stored window is open.
pub open spec fn single_open(rows: Seq<WindowModel>) -> bool {
    forall|i: int, j: int|
        0 <= i < rows.len() && 0 <= j < rows.len() && (#[trigger] rows[i]).is_open()
            && (#[trigger] rows[j]).is_open() ==> i == j
}

/// The candidate `w` reaches on both sides beyond a stored closed window
/// with another id. The conflict rule looks at the candidate's two endpoints
/// only, so it lets such a candidate pass.
pub open spec fn encloses_some(rows: Seq<WindowModel>, w: WindowModel) -> bool {
    exists|i: int| 0 <= i < rows.len() && w.id != (#[trigger] rows[i]).id && w.encloses(rows[i])
}

/// The candidate `w` is open and starts before a stored open window with
/// another id. The conflict rule lets such a candidate pass.
pub open spec fn opens_before_open(rows: Seq<WindowModel>, w: WindowModel) -> bool {
    w.is_open() && exists|i: int|
        0 <= i < rows.len() && w.id != (#[trigger] rows[i]).id && rows[i].is_open() && w.start_time
            < rows[i].start_time
}

/// Every row of `written(rows, w, id)` but the written one is a row of
/// `rows` with another id, and the written one is `w` under `id`.
proof fn lemma_written_rows(rows: Seq<WindowModel>, cats: Seq<Seq<char>>, w: WindowModel)
    requires
        rows_wf(rows, cats),
        upsert_accepts(rows, cats, w),
    ensures
        ({
            let id = stored_id(rows, w);
            let after = written(rows, w, id);
            let at = if has_id(rows, id) {
                position_of(rows, id)
            } else {
                rows.len() as int
            };
            &&& 0 <= at < after.len()
            &&& after[at] == (WindowModel { id: Some(id), ..w })
            &&& forall|i: int|
                0 <= i < after.len() && i != at ==> 0 <= i < rows.len() && (#[trigger] after[i])
                    == rows[i] && w.id != rows[i].id && !w.conflicts_with(rows[i])
        }),
{
    let id = stored_id(rows, w);
    let after = written(rows, w, id);
    lemma_next_id_new(rows);
    let at = if has_id(rows, id) {
        position_of(rows, id)
    } else {
        rows.len() as int
    };
    assert forall|i: int| 0 <= i < after.len() && i != at implies 0 <= i < rows.len() && (
    #[trigger] after[i]) == rows[i] && w.id != rows[i].id && !w.conflicts_with(rows[i]) by {
        assert(after[i] == rows[i]);
        if has_id(rows, id) {
            if i < at {
                assert(rows[i].id != rows[at].id);
            } else {
                assert(rows[at].id != rows[i].id);
            }
        } else {
            assert(rows[i].id != Some(id));
        }
    }
}

/// A successful write keeps the stored closed windows free of overlap,
/// unless the candidate reaches on both sides beyond a stored closed window.
pub proof fn law_upsert_keeps_no_overlap(rows: Seq<WindowModel>, cats: Seq<Seq<char>>, w: WindowModel)
    requires
        rows_wf(rows, cats),
        no_overlap(rows),
        upsert_accepts(rows, cats, w),
        !encloses_some(rows, w),
    ensures
        no_overlap(written(rows, w, stored_id(rows, w))),
{
    let id = stored_id(rows, w);
    let after = written(rows, w, id);
    lemma_written_rows(rows, cats, w);
    let at = if has_id(rows, id) {
        position_of(rows, id)
    } else {
        rows.len() as int
    };
    assert forall|i: int, j: int|
        0 <= i < after.len() && 0 <= j < after.len() && i != j implies !(#[trigger] after[i]).intersects(
        #[trigger] after[j],
    ) by {
        if i != at && j != at {
            assert(!rows[i].intersects(rows[j]));
        } else {
            let other = if i == at {
                j
            } else {
                i
            };
            assert(after[other] == rows[other]);
            assert(!w.conflicts_with(rows[other]));
            assert(!w.encloses(rows[other]));
            assert(rows[other].valid());
        }
    }
}

/// A successful write leaves at most one window open, unless the candidate
/// is open and starts before a stored open window.
pub proof fn law_upsert_keeps_single_open(rows: Seq<WindowModel>, cats: Seq<Seq<char>>, w: WindowModel)
    requires
        rows_wf(rows, cats),
        single_open(rows),
        upsert_accepts(rows, cats, w),
        !opens_before_open(rows, w),
    ensures
        single_open(written(rows, w, stored_id(rows, w))),
{
    let id = stored_id(rows, w);
    let after = written(rows, w, id);
    lemma_written_rows(rows, cats, w);
    let at = if has_id(rows, id) {
        position_of(rows, id)
    } else {
        rows.len() as int
    };
    assert forall|i: int, j: int|
        0 <= i < after.len() && 0 <= j < after.len() && (#[trigger] after[i]).is_open() && (
        #[trigger] after[j]).is_open() implies i == j by {
        if i != at && j != at {
            assert(rows[i].is_open() && rows[j].is_open());
        } else if i != j {
            let other = if i == at {
                j
            } else {
                i
            };
            assert(after[other] == rows[other]);
            assert(!w.conflicts_with(rows[other]));
            assert(w.start_time < rows[other].start_time);
        }
    }
}

/// Every candidate of `ws`, written in turn, is accepted.
pub open spec fn upserts_succeed(rows: Seq<WindowModel>, cats: Seq<Seq<char>>, ws: Seq<WindowModel>) -> bool
    decreases ws.len(),
{
    ws.len() == 0 || (upsert_accepts(rows, cats, ws[0]) && upserts_succeed(
        written(rows, ws[0], stored_id(rows, ws[0])),
        cats,
        ws.skip(1),
    ))
}

/// The rows after the candidates of `ws` are written in turn.
pub open spec fn after_upserts(rows: Seq<WindowModel>, ws: Seq<WindowModel>) -> Seq<WindowModel>
    decreases ws.len(),
{
    if ws.len() == 0 {
        rows
    } else {
        after_upserts(written(rows, ws[0], stored_id(rows, ws[0])), ws.skip(1))
    }
}

/// No candidate of `ws`, when its turn comes, reaches on both sides beyond
/// a stored closed window or opens before a stored open window.
pub open spec fn none_slips_through(rows: Seq<WindowModel>, ws: Seq<WindowModel>) -> bool
    decreases ws.len(),
{
    ws.len() == 0 || (!encloses_some(rows, ws[0]) && !opens_before_open(rows, ws[0])
        && none_slips_through(written(rows, ws[0], stored_id(rows, ws[0])), ws.skip(1)))
}

/// After any sequence of successful writes to a store without overlap and
/// with at most one open window, the store is still well formed, no two
/// closed windows overlap and at most one window is open, as long as no
/// candidate is one of those that the conflict rule lets pass wrongly.
pub proof fn law_upserts_keep_invariants(rows: Seq<WindowModel>, cats: Seq<Seq<char>>, ws: Seq<WindowModel>)
    requires
        rows_wf(rows, cats),
        no_overlap(rows),
        single_open(rows),
        upserts_succeed(rows, cats, ws),
        none_slips_through(rows, ws),
    ensures
        rows_wf(after_upserts(rows, ws), cats),
        no_overlap(after_upserts(rows, ws)),
        single_open(after_upserts(rows, ws)),
    decreases ws.len(),
{
    if ws.len() > 0 {
        let next = written(rows, ws[0], stored_id(rows, ws[0]));
        lemma_written_wf(rows, cats, ws[0], stored_id(rows, ws[0]));
        law_upsert_keeps_no_overlap(rows, cats, ws[0]);
        law_upsert_keeps_single_open(rows, cats, ws[0]);
        law_upserts_keep_invariants(next, cats, ws.skip(1));
    }
}

/// An empty store has no overlap and no open window.
pub proof fn law_empty_store()
    ensures
        no_overlap(Seq::<WindowModel>::empty()),
        single_open(Seq::<WindowModel>::empty()),
{
}

/// Reading or deleting by a filter never brings about an overlap or a
/// second open window.
pub proof fn law_chosen_keeps_invariants(rows: Seq<WindowModel>, cats: Seq<Seq<char>>, filter: RowFilter, keep: bool)
    requires
        rows_wf(rows, cats),
    ensures
        no_overlap(rows) ==> no_overlap(chosen(rows, filter, keep)),
        single_open(rows) ==> single_open(chosen(rows, filter, keep)),
{
    let after = chosen(rows, filter, keep);
    lemma_chosen_wf(rows, cats, filter, keep);
    if no_overlap(rows) {
        assert forall|i: int, j: int|
            0 <= i < after.len() && 0 <= j < after.len() && i != j implies !(#[trigger] after[i]).intersects(
            #[trigger] after[j],
        ) by {
            let a = choose|a: int| 0 <= a < rows.len() && rows[a] == after[i];
            let b = choose|b: int| 0 <= b < rows.len() && rows[b] == after[j];
            if i < j {
                assert(after[i].id != after[j].id);
            } else {
                assert(after[j].id != after[i].id);
            }
            assert(!rows[a].intersects(rows[b]));
        }
    }
    if single_open(rows) {
        assert forall|i: int, j: int|
            0 <= i < after.len() && 0 <= j < after.len() && (#[trigger] after[i]).is_open() && (
            #[trigger] after[j]).is_open() implies i == j by {
            if i != j {
                let a = choose|a: int| 0 <= a < rows.len() && rows[a] == after[i];
                let b = choose|b: int| 0 <= b < rows.len() && rows[b] == after[j];
                if i < j {
                    assert(after[i].id != after[j].id);
                } else {
                    assert(after[j].id != after[i].id);
                }
                assert(rows[a].is_open() && rows[b].is_open());
            }
        }
    }
}

/// Deleting one window never brings about an overlap or a second open window.
pub proof fn law_remove_keeps_invariants(rows: Seq<WindowModel>, at: int)
    requires
        0 <= at < rows.len(),
    ensures
        no_overlap(rows) ==> no_overlap(rows.remove(at)),
        single_open(rows) ==> single_open(rows.remove(at)),
{
    let after = rows.remove(at);
    if no_overlap(rows) {
        assert forall|i: int, j: int|
            0 <= i < after.len() && 0 <= j < after.len() && i != j implies !(#[trigger] after[i]).intersects(
            #[trigger] after[j],
        ) by {
            let a = if i < at { i } else { i + 1 };
            let b = if j < at { j } else { j + 1 };
            assert(!rows[a].intersects(rows[b]));
        }
    }
    if single_open(rows) {
        assert forall|i: int, j: int|
            0 <= i < after.len() && 0 <= j < after.len() && (#[trigger] after[i]).is_open() && (
            #[trigger] after[j]).is_open() implies i == j by {
            let a = if i < at { i } else { i + 1 };
            let b = if j < at { j } else { j + 1 };
            assert(rows[a].is_open() && rows[b].is_open());
        }
    }
}


/// After every open window is closed at once, none is open.
pub proof fn law_closed_at_leaves_none_open(rows: Seq<WindowModel>, now: int)
    ensures
        forall|i: int| 0 <= i < rows.len() ==> !(#[trigger] closed_at(rows, now)[i]).is_open(),
        single_open(closed_at(rows, now)),
{
}

/// Renaming a category never brings about an overlap or a second open window.
pub proof fn law_recategorized_keeps_invariants(rows: Seq<WindowModel>, from: Seq<char>, to: Seq<char>)
    ensures
        no_overlap(rows) ==> no_overlap(recategorized(rows, from, to)),
        single_open(rows) ==> single_open(recategorized(rows, from, to)),
{
    let after = recategorized(rows, from, to);
    if no_overlap(rows) {
        assert forall|i: int, j: int|
            0 <= i < after.len() && 0 <= j < after.len() && i != j implies !(#[trigger] after[i]).intersects(
            #[trigger] after[j],
        ) by {
            assert(!rows[i].intersects(rows[j]));
        }
    }
    if single_open(rows) {
        assert forall|i: int, j: int|
            0 <= i < after.len() && 0 <= j < after.len() && (#[trigger] after[i]).is_open() && (
            #[trigger] after[j]).is_open() implies i == j by {
            assert(rows[i].is_open() && rows[j].is_open());
        }
    }
}

/// Every window that is to be closed at the end of the working day has an end.
pub proof fn lemma_pending_are_closed(rows: Seq<WindowModel>, end_of_business: HourMinute, offset: int, now: int)
    ensures
        forall|i: int|
            0 <= i < pending_closes(rows, end_of_business, offset, now).len() ==> !(
            #[trigger] pending_closes(rows, end_of_business, offset, now)[i]).is_open(),
    decreases rows.len(),
{
    if rows.len() > 0 {
        lemma_pending_are_closed(rows.drop_last(), end_of_business, offset, now);
        let before = pending_closes(rows.drop_last(), end_of_business, offset, now);
        let after = pending_closes(rows, end_of_business, offset, now);
        assert forall|i: int| 0 <= i < after.len() implies !(#[trigger] after[i]).is_open() by {
            if i < before.len() {
                assert(after[i] == before[i]);
            }
        }
    }
}

/// Writing closed windows back in turn leaves at most one window open
/// where at most one was open before.
pub proof fn law_close_all_keeps_single_open(rows: Seq<WindowModel>, cats: Seq<Seq<char>>, pending: Seq<WindowModel>)
    requires
        rows_wf(rows, cats),
        single_open(rows),
        forall|i: int| 0 <= i < pending.len() ==> !(#[trigger] pending[i]).is_open(),
        close_all(rows, cats, pending) is Some,
    ensures
        rows_wf(close_all(rows, cats, pending)->Some_0, cats),
        single_open(close_all(rows, cats, pending)->Some_0),
    decreases pending.len(),
{
    if pending.len() > 0 {
        let next = written(rows, pending[0], stored_id(rows, pending[0]));
        assert(!pending[0].is_open());
        lemma_written_wf(rows, cats, pending[0], stored_id(rows, pending[0]));
        law_upsert_keeps_single_open(rows, cats, pending[0]);
        assert forall|i: int| 0 <= i < pending.skip(1).len() implies !(#[trigger] pending.skip(1)[i]).is_open() by {
            assert(pending.skip(1)[i] == pending[i + 1]);
        }
        law_close_all_keeps_single_open(next, cats, pending.skip(1));
    }
}

/// Closing at the end of the working day, where it succeeds, leaves at most
/// one window open where at most one was open before.
pub proof fn law_rollover_keeps_single_open(
    rows: Seq<WindowModel>,
    cats: Seq<Seq<char>>,
    end_of_business: HourMinute,
    offset: int,
    now: int,
)
    requires
        rows_wf(rows, cats),
        single_open(rows),
        close_all(rows, cats, pending_closes(rows, end_of_business, offset, now)) is Some,
    ensures
        single_open(close_all(rows, cats, pending_closes(rows, end_of_business, offset, now))->Some_0),
{
    lemma_pending_are_closed(rows, end_of_business, offset, now);
    law_close_all_keeps_single_open(rows, cats, pending_closes(rows, end_of_business, offset, now));
}


/// Where a window is open, every other window lies entirely before its start.
pub open spec fn open_is_last(rows: Seq<WindowModel>) -> bool {
    forall|i: int, j: int|
        0 <= i < rows.len() && 0 <= j < rows.len() && i != j && (#[trigger] rows[i]).is_open() ==> (
        #[trigger] rows[j]).start_time < rows[i].start_time && (rows[j].end_time matches Some(e)
            ==> e < rows[i].start_time)
}

/// The candidate `w` is open and starts before a stored window with
/// another id. The conflict rule lets such a candidate pass.
pub open spec fn opens_before_stored(rows: Seq<WindowModel>, w: WindowModel) -> bool {
    w.is_open() && exists|i: int|
        0 <= i < rows.len() && w.id != (#[trigger] rows[i]).id && w.start_time
            < rows[i].start_time
}

/// Where every other window lies before the open one, at most one is open.
pub proof fn law_open_is_last_means_single_open(rows: Seq<WindowModel>)
    requires
        open_is_last(rows),
    ensures
        single_open(rows),
{
    assert forall|i: int, j: int|
        0 <= i < rows.len() && 0 <= j < rows.len() && (#[trigger] rows[i]).is_open() && (
        #[trigger] rows[j]).is_open() implies i == j by {
        if i != j {
            assert(rows[j].start_time < rows[i].start_time);
            assert(rows[i].start_time < rows[j].start_time);
        }
    }
}

/// A successful write keeps every other window before the open one,
/// unless the candidate is open and starts before a stored window.
pub proof fn law_upsert_keeps_open_last(rows: Seq<WindowModel>, cats: Seq<Seq<char>>, w: WindowModel)
    requires
        rows_wf(rows, cats),
        open_is_last(rows),
        upsert_accepts(rows, cats, w),
        !opens_before_stored(rows, w),
    ensures
        open_is_last(written(rows, w, stored_id(rows, w))),
{
    let id = stored_id(rows, w);
    let after = written(rows, w, id);
    lemma_written_rows(rows, cats, w);
    let at = if has_id(rows, id) {
        position_of(rows, id)
    } else {
        rows.len() as int
    };
    assert forall|i: int, j: int|
        0 <= i < after.len() && 0 <= j < after.len() && i != j && (#[trigger] after[i]).is_open() implies (
    #[trigger] after[j]).start_time < after[i].start_time && (after[j].end_time matches Some(e)
        ==> e < after[i].start_time) by {
        if i != at && j != at {
            assert(rows[i].is_open());
            assert(rows[j].start_time < rows[i].start_time);
        } else if j == at {
            assert(after[i] == rows[i]);
            assert(!w.conflicts_with(rows[i]));
        } else {
            assert(after[j] == rows[j]);
            assert(!w.conflicts_with(rows[j]));
            assert(rows[j].valid());
            assert(!(w.start_time < rows[j].start_time));
        }
    }
}

/// Where every other window lies before the open one, closing the open
/// window at a time that is not before its start brings about no overlap.
/// This is why closing at once need not ask the conflict rule.
pub proof fn law_closing_keeps_no_overlap(rows: Seq<WindowModel>, now: int)
    requires
        no_overlap(rows),
        open_is_last(rows),
        !open_after(rows, now),
    ensures
        no_overlap(closed_at(rows, now)),
{
    let after = closed_at(rows, now);
    assert forall|i: int, j: int|
        0 <= i < after.len() && 0 <= j < after.len() && i != j implies !(#[trigger] after[i]).intersects(
        #[trigger] after[j],
    ) by {
        assert(!rows[i].intersects(rows[j]));
        if rows[i].is_open() {
            assert(rows[j].start_time < rows[i].start_time);
        }
        if rows[j].is_open() {
            assert(rows[i].start_time < rows[j].start_time);
        }
    }
}

/// Closing at once a store in which nothing is open changes nothing.
pub proof fn law_closing_at_once_is_idempotent(rows: Seq<WindowModel>, first: int, again: int)
    ensures
        closed_at(closed_at(rows, first), again) == closed_at(rows, first),
        !has_open(rows) ==> closed_at(rows, first) == rows,
{
    assert(closed_at(closed_at(rows, first), again) =~= closed_at(rows, first));
    if !has_open(rows) {
        assert forall|i: int| 0 <= i < rows.len() implies closed_at(rows, first)[i] == rows[i] by {
            assert(!rows[i].is_open());
        }
        assert(closed_at(rows, first) =~= rows);
    }
}

/// Closing at the end of the working day a store in which nothing is open
/// writes nothing and changes nothing.
pub proof fn law_rollover_is_idempotent(
    rows: Seq<WindowModel>,
    cats: Seq<Seq<char>>,
    end_of_business: HourMinute,
    offset: int,
    now: int,
)
    requires
        !has_open(rows),
    ensures
        pending_closes(rows, end_of_business, offset, now).len() == 0,
        close_all(rows, cats, pending_closes(rows, end_of_business, offset, now)) == Some(rows),
    decreases rows.len(),
{
    if rows.len() > 0 {
        assert(!has_open(rows.drop_last())) by {
            if has_open(rows.drop_last()) {
                let i = choose|i: int|
                    0 <= i < rows.drop_last().len() && (#[trigger] rows.drop_last()[i]).is_open();
                assert(rows[i].is_open());
            }
        }
        law_rollover_is_idempotent(rows.drop_last(), cats, end_of_business, offset, now);
        assert(!rows[rows.len() - 1].is_open());
    }
}


/// No window is closed in the future: the time to close a window at is
/// never after `now`. Where it is before `now`, it is an end of the working
/// day that came after the start, within a day of it.
pub proof fn law_close_time_not_after_now(start: int, end_of_business: HourMinute, offset: int, now: int)
    requires
        end_of_business.valid(),
    ensures
        close_time(start, end_of_business, offset, now) <= now,
        close_time(start, end_of_business, offset, now) < now ==> start < close_time(
            start,
            end_of_business,
            offset,
            now,
        ) <= start + 86_400,
{
}

/// The window is closed and its end is not after `t`.
pub open spec fn ends_by(w: WindowModel, t: int) -> bool {
    w.end_time matches Some(e) && e <= t
}

/// Every window that is closed at the end of the working day gets an end
/// that is not after `now`.
pub proof fn law_rollover_never_closes_in_future(
    rows: Seq<WindowModel>,
    end_of_business: HourMinute,
    offset: int,
    now: int,
)
    ensures
        forall|i: int|
            0 <= i < pending_closes(rows, end_of_business, offset, now).len() ==> ends_by(
                #[trigger] pending_closes(rows, end_of_business, offset, now)[i],
                now,
            ),
    decreases rows.len(),
{
    if rows.len() > 0 {
        law_rollover_never_closes_in_future(rows.drop_last(), end_of_business, offset, now);
        let before = pending_closes(rows.drop_last(), end_of_business, offset, now);
        let after = pending_closes(rows, end_of_business, offset, now);
        assert forall|i: int| 0 <= i < after.len() implies ends_by(#[trigger] after[i], now) by {
            if i < before.len() {
                assert(after[i] == before[i]);
            }
        }
    }
}


/// The positions of the open windows among `rows`, in their order.
pub open spec fn open_positions(rows: Seq<WindowModel>) -> Seq<int>
    decreases rows.len(),
{
    if rows.len() == 0 {
        Seq::empty()
    } else if rows.last().is_open() {
        open_positions(rows.drop_last()).push(rows.len() - 1)
    } else {
        open_positions(rows.drop_last())
    }
}

/// The windows that are to be closed are the open windows of `rows`, one
/// for each and in their order, each with its end.
proof fn lemma_pending_positions(rows: Seq<WindowModel>, end_of_business: HourMinute, offset: int, now: int)
    ensures
        pending_closes(rows, end_of_business, offset, now).len() == open_positions(rows).len(),
        forall|k: int|
            0 <= k < open_positions(rows).len() ==> 0 <= (#[trigger] open_positions(rows)[k])
                < rows.len() && rows[open_positions(rows)[k]].is_open() && pending_closes(
                rows,
                end_of_business,
                offset,
                now,
            )[k] == closed_by_boundary(rows, end_of_business, offset, now)[open_positions(rows)[k]],
        forall|j: int, k: int|
            0 <= j < k < open_positions(rows).len() ==> (#[trigger] open_positions(rows)[j]) < (
            #[trigger] open_positions(rows)[k]),
        forall|i: int|
            0 <= i < rows.len() && (#[trigger] rows[i]).is_open() ==> open_positions(rows).contains(i),
    decreases rows.len(),
{
    if rows.len() > 0 {
        let front = rows.drop_last();
        lemma_pending_positions(front, end_of_business, offset, now);
        let idx0 = open_positions(front);
        let idx = open_positions(rows);
        let p0 = pending_closes(front, end_of_business, offset, now);
        let p = pending_closes(rows, end_of_business, offset, now);
        assert forall|k: int| 0 <= k < idx.len() implies 0 <= (#[trigger] idx[k]) < rows.len()
            && rows[idx[k]].is_open() && p[k] == closed_by_boundary(
            rows,
            end_of_business,
            offset,
            now,
        )[idx[k]] by {
            if k < idx0.len() {
                assert(idx[k] == idx0[k]);
                assert(p[k] == p0[k]);
                assert(front[idx0[k]] == rows[idx0[k]]);
            }
        }
        assert forall|j: int, k: int| 0 <= j < k < idx.len() implies (#[trigger] idx[j]) < (
        #[trigger] idx[k]) by {
            assert(idx[j] == idx0[j]);
            if k < idx0.len() {
                assert(idx[k] == idx0[k]);
            }
        }
        assert forall|i: int| 0 <= i < rows.len() && (#[trigger] rows[i]).is_open() implies idx.contains(
            i,
        ) by {
            if i < front.len() {
                assert(front[i].is_open());
                let k = choose|k: int| 0 <= k < idx0.len() && idx0[k] == i;
                assert(idx[k] == i);
            } else {
                assert(idx[idx.len() - 1] == i);
            }
        }
    }
}

/// Writing back windows that bear the ids of the rows at rising positions
/// puts each at its position and leaves every other row as it was.
proof fn lemma_close_all_updates(
    cur: Seq<WindowModel>,
    cats: Seq<Seq<char>>,
    pending: Seq<WindowModel>,
    idx: Seq<int>,
)
    requires
        rows_wf(cur, cats),
        pending.len() == idx.len(),
        forall|k: int|
            0 <= k < idx.len() ==> 0 <= (#[trigger] idx[k]) < cur.len() && pending[k].id
                == cur[idx[k]].id,
        forall|j: int, k: int| 0 <= j < k < idx.len() ==> (#[trigger] idx[j]) < (#[trigger] idx[k]),
        close_all(cur, cats, pending) is Some,
    ensures
        close_all(cur, cats, pending)->Some_0.len() == cur.len(),
        forall|k: int|
            0 <= k < idx.len() ==> close_all(cur, cats, pending)->Some_0[#[trigger] idx[k]]
                == pending[k],
        forall|i: int|
            0 <= i < cur.len() && !idx.contains(i) ==> (#[trigger] close_all(
                cur,
                cats,
                pending,
            )->Some_0[i]) == cur[i],
    decreases pending.len(),
{
    if pending.len() > 0 {
        let w = pending[0];
        let at = idx[0];
        let id = cur[at].id->Some_0;
        assert(cur[at].id is Some);
        assert(w.id == Some(id));
        lemma_position_of(cur, cats, at);
        let next = written(cur, w, id);
        assert(next =~= cur.update(at, w));
        lemma_written_wf(cur, cats, w, id);
        let rest = pending.skip(1);
        let idx1 = idx.skip(1);
        assert forall|k: int| 0 <= k < idx1.len() implies 0 <= (#[trigger] idx1[k]) < next.len()
            && rest[k].id == next[idx1[k]].id by {
            assert(idx1[k] == idx[k + 1]);
            assert(idx[0] < idx[k + 1]);
        }
        assert forall|j: int, k: int| 0 <= j < k < idx1.len() implies (#[trigger] idx1[j]) < (
        #[trigger] idx1[k]) by {
            assert(idx[j + 1] < idx[k + 1]);
        }
        lemma_close_all_updates(next, cats, rest, idx1);
        let fin = close_all(cur, cats, pending)->Some_0;
        assert(fin == close_all(next, cats, rest)->Some_0);
        assert(!idx1.contains(at)) by {
            if idx1.contains(at) {
                let k = choose|k: int| 0 <= k < idx1.len() && idx1[k] == at;
                assert(idx[0] < idx[k + 1]);
            }
        }
        assert forall|k: int| 0 <= k < idx.len() implies fin[#[trigger] idx[k]] == pending[k] by {
            if k == 0 {
                assert(fin[at] == next[at]);
            } else {
                assert(idx1[k - 1] == idx[k]);
                assert(rest[k - 1] == pending[k]);
            }
        }
        assert forall|i: int| 0 <= i < cur.len() && !idx.contains(i) implies (#[trigger] fin[i])
            == cur[i] by {
            assert(idx[0] == at);
            assert(i != at);
            if idx1.contains(i) {
                let k = choose|k: int| 0 <= k < idx1.len() && idx1[k] == i;
                assert(idx[k + 1] == i);
            }
            assert(fin[i] == next[i]);
        }
    }
}

/// Closing at the end of the working day, where it succeeds, leaves as many
/// windows as there were, each closed window as it was, and each open
/// window closed at the next end of the working day after its start, or at
/// `now` if that is earlier.
pub proof fn law_rollover_closes_each_open_window(
    rows: Seq<WindowModel>,
    cats: Seq<Seq<char>>,
    end_of_business: HourMinute,
    offset: int,
    now: int,
)
    requires
        rows_wf(rows, cats),
        close_all(rows, cats, pending_closes(rows, end_of_business, offset, now)) is Some,
    ensures
        close_all(rows, cats, pending_closes(rows, end_of_business, offset, now)) == Some(
            closed_by_boundary(rows, end_of_business, offset, now),
        ),
{
    let pending = pending_closes(rows, end_of_business, offset, now);
    let idx = open_positions(rows);
    let goal = closed_by_boundary(rows, end_of_business, offset, now);
    lemma_pending_positions(rows, end_of_business, offset, now);
    assert forall|k: int| 0 <= k < idx.len() implies 0 <= (#[trigger] idx[k]) < rows.len()
        && pending[k].id == rows[idx[k]].id by {
        assert(pending[k] == goal[idx[k]]);
    }
    lemma_close_all_updates(rows, cats, pending, idx);
    let fin = close_all(rows, cats, pending)->Some_0;
    assert forall|i: int| 0 <= i < rows.len() implies fin[i] == goal[i] by {
        if rows[i].is_open() {
            let k = choose|k: int| 0 <= k < idx.len() && idx[k] == i;
            assert(fin[idx[k]] == pending[k]);
        } else {
            if idx.contains(i) {
                let k = choose|k: int| 0 <= k < idx.len() && idx[k] == i;
                assert(rows[idx[k]].is_open());
            }
        }
    }
    assert(fin =~= goal);
}

/// After closing at the end of the working day no window that was open
/// ends after `now`, and none is left open.
pub proof fn law_rollover_leaves_nothing_in_future(
    rows: Seq<WindowModel>,
    end_of_business: HourMinute,
    offset: int,
    now: int,
)
    ensures
        forall|i: int|
            0 <= i < rows.len() ==> !(#[trigger] closed_by_boundary(
                rows,
                end_of_business,
                offset,
                now,
            )[i]).is_open(),
        forall|i: int|
            0 <= i < rows.len() && rows[i].is_open() ==> ends_by(
                #[trigger] closed_by_boundary(rows, end_of_business, offset, now)[i],
                now,
            ),
{
}


/// However timing is stopped, at the end of the working day or at once, no
/// window that was open ends after `now`, none is left open, and every
/// closed window is as it was.
pub proof fn law_stopping_never_closes_in_future(
    rows: Seq<WindowModel>,
    cats: Seq<Seq<char>>,
    boundary: Option<HourMinute>,
    offset: int,
    now: int,
)
    requires
        rows_wf(rows, cats),
        stopped(rows, cats, boundary, offset, now) is Some,
    ensures
        stopped(rows, cats, boundary, offset, now)->Some_0.len() == rows.len(),
        forall|i: int|
            0 <= i < rows.len() ==> if (#[trigger] rows[i]).is_open() {
                ends_by(stopped(rows, cats, boundary, offset, now)->Some_0[i], now)
            } else {
                stopped(rows, cats, boundary, offset, now)->Some_0[i] == rows[i]
            },
{
    match boundary {
        Some(end_of_business) => {
            law_rollover_closes_each_open_window(rows, cats, end_of_business, offset, now);
        },
        None => {},
    }
}

} // verus!
