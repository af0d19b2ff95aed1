//! The interval store: categories, options and time windows, with the
//! operations that write, read and delete windows.

use vstd::prelude::*;
use crate::error::TTError;
use crate::window::{TimeWindow, WindowModel};

verus! {

/// The store. Its rows always carry an id, ids are unique, every row is
/// valid on its own and names a stored category, and no category is stored
/// twice; see [`Ledger::wf`].
pub struct Ledger {
    categories: Vec<String>,
    end_of_day: Option<String>,
    times: Vec<TimeWindow>,
    last_rowid: i64,
}

/// The name under which the end of the working day is stored.
pub open spec fn end_of_day_name() -> Seq<char> {
    "end-of-day"@
}

/// A sequence of machine integers as mathematical integers.
pub open spec fn ints(s: Seq<i64>) -> Seq<int> {
    Seq::new(s.len(), |i: int| s[i] as int)
}

/// What the store demands of its rows whatever their intervals are.
pub open spec fn rows_wf(rows: Seq<WindowModel>, cats: Seq<Seq<char>>) -> bool {
    &&& forall|i: int|
        0 <= i < rows.len() ==> (#[trigger] rows[i]).id is Some && rows[i].valid()
            && cats.contains(rows[i].category)
    &&& forall|i: int, j: int|
        0 <= i < j < rows.len() ==> (#[trigger] rows[i]).id != (#[trigger] rows[j]).id
    &&& cats.no_duplicates()
}

/// Some stored window conflicts with the candidate `w`.
pub open spec fn has_conflict(rows: Seq<WindowModel>, w: WindowModel) -> bool {
    exists|i: int| 0 <= i < rows.len() && w.conflicts_with(#[trigger] rows[i])
}

/// `k` is the position of the first stored window that conflicts with `w`.
pub open spec fn is_first_conflict(rows: Seq<WindowModel>, w: WindowModel, k: int) -> bool {
    &&& 0 <= k < rows.len()
    &&& w.conflicts_with(rows[k])
    &&& forall|j: int| 0 <= j < k ==> !w.conflicts_with(#[trigger] rows[j])
}

/// The ids of the stored windows that conflict with `w`, in stored order.
pub open spec fn conflict_ids(rows: Seq<WindowModel>, w: WindowModel) -> Seq<int>
    decreases rows.len(),
{
    if rows.len() == 0 {
        Seq::empty()
    } else {
        let before = conflict_ids(rows.drop_last(), w);
        match rows.last().id {
            Some(id) if w.conflicts_with(rows.last()) => before.push(id),
            _ => before,
        }
    }
}

/// The largest id among `rows`; 0 where there are none.
pub open spec fn max_id(rows: Seq<WindowModel>) -> int
    decreases rows.len(),
{
    if rows.len() == 0 {
        0
    } else {
        let id = match rows.last().id {
            Some(v) => v,
            None => 0,
        };
        if rows.len() == 1 || id > max_id(rows.drop_last()) {
            id
        } else {
            max_id(rows.drop_last())
        }
    }
}

/// The id that a window written without one receives: 1 in an empty store,
/// otherwise one more than the largest id in use.
pub open spec fn next_id(rows: Seq<WindowModel>) -> int {
    if rows.len() == 0 {
        1
    } else {
        max_id(rows) + 1
    }
}

/// The id under which the candidate `w` is stored.
pub open spec fn stored_id(rows: Seq<WindowModel>, w: WindowModel) -> int {
    match w.id {
        Some(id) => id,
        None => next_id(rows),
    }
}

/// A row with the id `id` is stored.
pub open spec fn has_id(rows: Seq<WindowModel>, id: int) -> bool {
    exists|i: int| 0 <= i < rows.len() && (#[trigger] rows[i]).id == Some(id)
}

/// The position of a row with the id `id`.
pub open spec fn position_of(rows: Seq<WindowModel>, id: int) -> int {
    choose|i: int| 0 <= i < rows.len() && (#[trigger] rows[i]).id == Some(id)
}

/// The rows after `w` is written under the id `id`: the row with that id is
/// replaced where it stands, and a window with a new id goes to the end.
pub open spec fn written(rows: Seq<WindowModel>, w: WindowModel, id: int) -> Seq<WindowModel> {
    let row = WindowModel { id: Some(id), ..w };
    if has_id(rows, id) {
        rows.update(position_of(rows, id), row)
    } else {
        rows.push(row)
    }
}

/// The store takes the candidate `w`: nothing conflicts with it, it is valid
/// on its own, its category is stored, and an id can be had for it.
pub open spec fn upsert_accepts(rows: Seq<WindowModel>, cats: Seq<Seq<char>>, w: WindowModel) -> bool {
    &&& !has_conflict(rows, w)
    &&& w.valid()
    &&& cats.contains(w.category)
    &&& stored_id(rows, w) <= i64::MAX
}

/// The message for a window that is not valid on its own.
pub open spec fn invalid_window_message() -> Seq<char> {
    "start time must not be negative and end time must not be before start time"@
}

/// The message for a window without an id when the largest id is in use.
pub open spec fn no_id_left_message() -> Seq<char> {
    "no window id is left to assign"@
}

/// The message for a new category whose name is stored already.
pub open spec fn category_exists_message() -> Seq<char> {
    "the category exists already"@
}

/// The message for a new name of a category that another category bears.
pub open spec fn name_in_use_message() -> Seq<char> {
    "the new category name is in use"@
}

/// The message for closing at a time before the start of an open window.
pub open spec fn closes_before_start_message() -> Seq<char> {
    "an open window starts after the time to close it at"@
}

/// `e` is the error with which the store refuses the candidate `w`: the
/// conflicts where there are any, with every conflicting id in stored
/// order, the candidate itself and the first conflicting window; otherwise
/// the fault of the window on its own; otherwise its unknown category;
/// otherwise the want of an id.
pub open spec fn refusal(rows: Seq<WindowModel>, cats: Seq<Seq<char>>, w: WindowModel, e: TTError) -> bool {
    if has_conflict(rows, w) {
        e matches TTError::Overlap { ids, time, example } && ints(ids@) == conflict_ids(rows, w)
            && time@ == w && exists|k: int| is_first_conflict(rows, w, k) && example@ == rows[k]
    } else if !w.valid() {
        e matches TTError::TTError { message } && message@ == invalid_window_message()
    } else if !cats.contains(w.category) {
        e == TTError::NotFound
    } else {
        e matches TTError::TTError { message } && message@ == no_id_left_message()
    }
}

/// In a well-formed store the row with a given id stands at one position only.
pub proof fn lemma_position_of(rows: Seq<WindowModel>, cats: Seq<Seq<char>>, i: int)
    requires
        rows_wf(rows, cats),
        0 <= i < rows.len(),
    ensures
        has_id(rows, rows[i].id->Some_0),
        position_of(rows, rows[i].id->Some_0) == i,
{
    let id = rows[i].id->Some_0;
    assert(rows[i].id == Some(id));
    let p = position_of(rows, id);
    if p < i {
        assert(rows[p].id != rows[i].id);
    } else if i < p {
        assert(rows[i].id != rows[p].id);
    }
}

impl Ledger {
    /// The stored windows, in stored order.
    pub closed spec fn rows(&self) -> Seq<WindowModel> {
        Seq::new(self.times@.len(), |i: int| self.times@[i]@)
    }

    /// The names of the stored categories.
    pub closed spec fn category_names(&self) -> Seq<Seq<char>> {
        Seq::new(self.categories@.len(), |i: int| self.categories@[i]@)
    }

    /// The stored options, each a name and a value. The one option there is
    /// names the time of day that ends the working day.
    pub closed spec fn option_pairs(&self) -> Seq<(Seq<char>, Seq<char>)> {
        match self.end_of_day {
            Some(value) => seq![(end_of_day_name(), value@)],
            None => Seq::empty(),
        }
    }

    /// The id under which the last window was written; 0 before the first.
    pub closed spec fn last_id(&self) -> int {
        self.last_rowid as int
    }

    /// The store's own invariant.
    pub open spec fn wf(&self) -> bool {
        rows_wf(self.rows(), self.category_names())
    }

    /// An empty store.
    pub fn new() -> (r: Ledger)
        ensures
            r.wf(),
            r.rows() == Seq::<WindowModel>::empty(),
            r.category_names() == Seq::<Seq<char>>::empty(),
            r.option_pairs() == Seq::<(Seq<char>, Seq<char>)>::empty(),
            r.last_id() == 0,
    {
        let r = Ledger { categories: Vec::new(), end_of_day: None, times: Vec::new(), last_rowid: 0 };
        assert(r.rows() =~= Seq::<WindowModel>::empty());
        assert(r.category_names() =~= Seq::<Seq<char>>::empty());
        r
    }

    /// The id under which the last window was written; 0 before the first.
    pub fn last_insert_rowid(&self) -> (r: i64)
        ensures
            r == self.last_id(),
    {
        self.last_rowid
    }

    /// Whether a category of this name is stored.
    pub fn has_category(&self, name: &String) -> (r: bool)
        ensures
            r == self.category_names().contains(name@),
    {
        let mut i: usize = 0;
        while i < self.categories.len()
            invariant
                i <= self.categories@.len(),
                forall|j: int| 0 <= j < i ==> self.category_names()[j] != name@,
            decreases self.categories@.len() - i,
        {
            if self.categories[i] == *name {
                assert(self.category_names()[i as int] == name@);
                return true;
            }
            i += 1;
        }
        false
    }

    /// The position of the stored window with the id `id`, if there is one.
    fn find(&self, id: i64) -> (r: Option<usize>)
        requires
            self.wf(),
        ensures
            r is Some == has_id(self.rows(), id as int),
            r matches Some(i) ==> i < self.times@.len() && i == position_of(self.rows(), id as int)
                && self.rows()[i as int].id == Some(id as int),
    {
        let mut i: usize = 0;
        while i < self.times.len()
            invariant
                i <= self.times@.len(),
                self.wf(),
                forall|j: int| 0 <= j < i ==> (#[trigger] self.rows()[j]).id != Some(id as int),
            decreases self.times@.len() - i,
        {
            let found = match self.times[i].id {
                Some(v) => v == id,
                None => false,
            };
            if found {
                proof {
                    assert(self.rows()[i as int].id == Some(id as int));
                    lemma_position_of(self.rows(), self.category_names(), i as int);
                }
                return Some(i);
            }
            i += 1;
        }
        None
    }

    /// The largest id in use; 0 in an empty store.
    fn largest_id(&self) -> (r: i64)
        requires
            self.wf(),
        ensures
            r == max_id(self.rows()),
    {
        let mut m: i64 = 0;
        let mut i: usize = 0;
        while i < self.times.len()
            invariant
                i <= self.times@.len(),
                self.wf(),
                m == max_id(self.rows().take(i as int)),
            decreases self.times@.len() - i,
        {
            proof {
                assert(self.rows().take(i + 1).drop_last() =~= self.rows().take(i as int));
            }
            let id = match self.times[i].id {
                Some(v) => v,
                None => 0,
            };
            if i == 0 || id > m {
                m = id;
            }
            i += 1;
        }
        proof {
            assert(self.rows().take(i as int) =~= self.rows());
        }
        m
    }

    /// The ids of the stored windows that conflict with `time`, in stored
    /// order, and the position of the first of them.
    fn conflicts_of(&self, time: &TimeWindow) -> (r: (Vec<i64>, Option<usize>))
        requires
            self.wf(),
        ensures
            ints(r.0@) == conflict_ids(self.rows(), time@),
            r.1 is Some == has_conflict(self.rows(), time@),
            r.1 matches Some(k) ==> is_first_conflict(self.rows(), time@, k as int),
    {
        let mut ids: Vec<i64> = Vec::new();
        let mut first: Option<usize> = None;
        let mut i: usize = 0;
        proof {
            assert(ints(ids@) =~= conflict_ids(self.rows().take(0), time@));
        }
        while i < self.times.len()
            invariant
                i <= self.times@.len(),
                self.wf(),
                ints(ids@) == conflict_ids(self.rows().take(i as int), time@),
                first is None ==> forall|j: int|
                    0 <= j < i ==> !time@.conflicts_with(#[trigger] self.rows()[j]),
                first matches Some(k) ==> k < i && is_first_conflict(self.rows(), time@, k as int),
            decreases self.times@.len() - i,
        {
            proof {
                assert(self.rows().take(i + 1).drop_last() =~= self.rows().take(i as int));
                assert(self.rows().take(i + 1).last() == self.rows()[i as int]);
            }
            if time.conflicts(&self.times[i]) {
                let ghost before = ids@;
                match self.times[i].id {
                    Some(id) => {
                        ids.push(id);
                        proof {
                            assert(ints(ids@) =~= ints(before).push(id as int));
                        }
                    },
                    None => {},
                }
                if first.is_none() {
                    first = Some(i);
                }
            }
            i += 1;
        }
        proof {
            assert(self.rows().take(i as int) =~= self.rows());
        }
        (ids, first)
    }
}

/// Writes `time` to the store, unless the store refuses it.
///
/// A candidate that conflicts with stored windows is refused with
/// [`TTError::Overlap`], which names every conflicting id and holds the
/// candidate and the first conflicting window. Otherwise, one that is not valid on its own is refused
/// with [`TTError::TTError`]; otherwise one whose category is not stored, with
/// [`TTError::NotFound`]; otherwise one for which no id is left, with
/// [`TTError::TTError`]. A refusal leaves the store as it was. An accepted
/// candidate with an id replaces the stored window of that id or is added
/// under it; one without an id is added under the next free id.
pub fn upsert_time(ledger: &mut Ledger, time: TimeWindow) -> (res: Result<(), TTError>)
    requires
        old(ledger).wf(),
    ensures
        final(ledger).wf(),
        final(ledger).category_names() == old(ledger).category_names(),
        final(ledger).option_pairs() == old(ledger).option_pairs(),
        res is Ok == upsert_accepts(old(ledger).rows(), old(ledger).category_names(), time@),
        res is Ok ==> final(ledger).rows() == written(
            old(ledger).rows(),
            time@,
            stored_id(old(ledger).rows(), time@),
        ) && final(ledger).last_id() == stored_id(old(ledger).rows(), time@),
        res is Err ==> *final(ledger) == *old(ledger),
        res matches Err(e) ==> refusal(
            old(ledger).rows(),
            old(ledger).category_names(),
            time@,
            e,
        ),
{
    let (ids, first) = ledger.conflicts_of(&time);
    if let Some(k) = first {
        let example = ledger.times[k].duplicate();
        assert(example@ == ledger.rows()[k as int]);
        return Err(TTError::Overlap { ids, time, example });
    }
    if !time.is_valid() {
        return Err(
            TTError::TTError {
                message: "start time must not be negative and end time must not be before start time".to_string(),
            },
        );
    }
    if !ledger.has_category(&time.category) {
        return Err(TTError::NotFound);
    }
    let ghost rows = ledger.rows();
    let ghost cats = ledger.category_names();
    match time.id {
        Some(id) => {
            let row = time;
            match ledger.find(id) {
                Some(i) => {
                    ledger.times.set(i, row);
                    proof {
                        assert(ledger.rows() =~= written(rows, row@, id as int));
                    }
                },
                None => {
                    ledger.times.push(row);
                    proof {
                        assert(ledger.rows() =~= written(rows, row@, id as int));
                    }
                },
            }
            ledger.last_rowid = id;
            proof {
                assert(ledger.category_names() =~= cats);
                lemma_written_wf(rows, cats, row@, id as int);
            }
            Ok(())
        },
        None => {
            let id: i64 = if ledger.times.len() == 0 {
                1
            } else {
                let m = ledger.largest_id();
                if m == i64::MAX {
                    return Err(
                        TTError::TTError { message: "no window id is left to assign".to_string() },
                    );
                }
                m + 1
            };
            proof {
                lemma_next_id_new(rows);
            }
            let row = TimeWindow {
                id: Some(id),
                category: time.category,
                start_time: time.start_time,
                end_time: time.end_time,
            };
            ledger.times.push(row);
            ledger.last_rowid = id;
            proof {
                assert(ledger.rows() =~= written(rows, time@, id as int));
                assert(ledger.category_names() =~= cats);
                lemma_written_wf(rows, cats, time@, id as int);
            }
            Ok(())
        },
    }
}

/// No stored id is above the largest.
pub proof fn lemma_max_id_bounds(rows: Seq<WindowModel>, i: int)
    requires
        0 <= i < rows.len(),
        rows[i].id is Some,
    ensures
        rows[i].id->Some_0 <= max_id(rows),
    decreases rows.len(),
{
    if i < rows.len() - 1 {
        lemma_max_id_bounds(rows.drop_last(), i);
    }
}

/// The next free id is not in use.
pub proof fn lemma_next_id_new(rows: Seq<WindowModel>)
    ensures
        !has_id(rows, next_id(rows)),
{
    if has_id(rows, next_id(rows)) {
        let p = position_of(rows, next_id(rows));
        lemma_max_id_bounds(rows, p);
    }
}

/// Writing a valid window of a stored category keeps the store well formed.
pub proof fn lemma_written_wf(rows: Seq<WindowModel>, cats: Seq<Seq<char>>, w: WindowModel, id: int)
    requires
        rows_wf(rows, cats),
        w.valid(),
        cats.contains(w.category),
    ensures
        rows_wf(written(rows, w, id), cats),
{
    let row = WindowModel { id: Some(id), ..w };
    let after = written(rows, w, id);
    if has_id(rows, id) {
        let p = position_of(rows, id);
        assert forall|i: int, j: int| 0 <= i < j < after.len() implies (#[trigger] after[i]).id != (
        #[trigger] after[j]).id by {
            assert(rows[i].id != rows[j].id);
            if i == p {
                assert(rows[p].id != rows[j].id);
            }
            if j == p {
                assert(rows[i].id != rows[p].id);
            }
        }
        assert forall|i: int| 0 <= i < after.len() implies (#[trigger] after[i]).id is Some
            && after[i].valid() && cats.contains(after[i].category) by {
            if i != p {
                assert(after[i] == rows[i]);
            }
        }
    } else {
        assert forall|i: int, j: int| 0 <= i < j < after.len() implies (#[trigger] after[i]).id != (
        #[trigger] after[j]).id by {
            if j == rows.len() {
                assert(rows[i].id != Some(id));
            } else {
                assert(rows[i].id != rows[j].id);
            }
        }
        assert forall|i: int| 0 <= i < after.len() implies (#[trigger] after[i]).id is Some
            && after[i].valid() && cats.contains(after[i].category) by {
            if i < rows.len() {
                assert(after[i] == rows[i]);
            }
        }
    }
}


/// A condition on stored windows by which they are read or deleted.
pub ghost enum RowFilter {
    /// The start is not before `earliest` and not after `latest`, each where given.
    StartBetween { earliest: Option<int>, latest: Option<int> },
    /// The start or the end lies in the closed range from `from` to `to`.
    Touching { from: int, to: int },
    /// The window is closed and lies entirely in the closed range from `from` to `to`.
    Within { from: int, to: int },
    /// The window is logged against the category `name`.
    InCategory { name: Seq<char> },
    /// The window is closed.
    Closed,
}

impl RowFilter {
    /// The window `w` meets the condition.
    pub open spec fn accepts(self, w: WindowModel) -> bool {
        match self {
            RowFilter::StartBetween { earliest, latest } => (earliest matches Some(a)
                ==> w.start_time >= a) && (latest matches Some(b) ==> w.start_time <= b),
            RowFilter::Touching { from, to } => (from <= w.start_time <= to) || (
            w.end_time matches Some(e) && from <= e <= to),
            RowFilter::Within { from, to } => w.start_time >= from && (w.end_time matches Some(e)
                && e <= to),
            RowFilter::InCategory { name } => w.category == name,
            RowFilter::Closed => !w.is_open(),
        }
    }
}

/// The windows among `rows`, in their order, of which `filter` gives `keep`.
pub open spec fn chosen(rows: Seq<WindowModel>, filter: RowFilter, keep: bool) -> Seq<WindowModel>
    decreases rows.len(),
{
    if rows.len() == 0 {
        rows
    } else {
        let before = chosen(rows.drop_last(), filter, keep);
        if filter.accepts(rows.last()) == keep {
            before.push(rows.last())
        } else {
            before
        }
    }
}

/// The filter for a bulk deletion over the range from `from` to `to`.
pub open spec fn bulk_filter(from: int, to: int, non_inclusive: bool) -> RowFilter {
    if non_inclusive {
        RowFilter::Within { from, to }
    } else {
        RowFilter::Touching { from, to }
    }
}

/// What is chosen from a well-formed store's rows is well formed, and each
/// chosen window is one of the rows.
pub proof fn lemma_chosen_wf(rows: Seq<WindowModel>, cats: Seq<Seq<char>>, filter: RowFilter, keep: bool)
    requires
        rows_wf(rows, cats),
    ensures
        rows_wf(chosen(rows, filter, keep), cats),
        chosen(rows, filter, keep).len() <= rows.len(),
        forall|k: int|
            0 <= k < chosen(rows, filter, keep).len() ==> exists|j: int|
                0 <= j < rows.len() && rows[j] == #[trigger] chosen(rows, filter, keep)[k],
    decreases rows.len(),
{
    if rows.len() > 0 {
        let front = rows.drop_last();
        assert forall|i: int, j: int| 0 <= i < j < front.len() implies (#[trigger] front[i]).id != (
        #[trigger] front[j]).id by {
            assert(rows[i].id != rows[j].id);
        }
        assert forall|i: int| 0 <= i < front.len() implies (#[trigger] front[i]).id is Some
            && front[i].valid() && cats.contains(front[i].category) by {
            assert(front[i] == rows[i]);
        }
        lemma_chosen_wf(front, cats, filter, keep);
        let before = chosen(front, filter, keep);
        let after = chosen(rows, filter, keep);
        assert forall|k: int| 0 <= k < after.len() implies exists|j: int|
            0 <= j < rows.len() && rows[j] == #[trigger] after[k] by {
            if k < before.len() {
                assert(after[k] == before[k]);
                let j = choose|j: int| 0 <= j < front.len() && front[j] == before[k];
                assert(rows[j] == after[k]);
            } else {
                assert(rows[rows.len() - 1] == after[k]);
            }
        }
        if filter.accepts(rows.last()) == keep {
            assert forall|i: int, j: int| 0 <= i < j < after.len() implies (#[trigger] after[i]).id
                != (#[trigger] after[j]).id by {
                if j == before.len() {
                    let m = choose|m: int| 0 <= m < front.len() && front[m] == before[i];
                    assert(rows[m].id != rows[rows.len() - 1].id);
                } else {
                    assert(before[i].id != before[j].id);
                }
            }
            assert forall|i: int| 0 <= i < after.len() implies (#[trigger] after[i]).id is Some
                && after[i].valid() && cats.contains(after[i].category) by {
                if i < before.len() {
                    assert(after[i] == before[i]);
                } else {
                    assert(after[i] == rows[rows.len() - 1]);
                }
            }
        }
    }
}

/// The views of a vector of windows.
pub open spec fn models(v: Seq<TimeWindow>) -> Seq<WindowModel> {
    Seq::new(v.len(), |i: int| v[i]@)
}

/// A [`RowFilter`] with the values that the running code tests.
enum Picker<'a> {
    StartBetween(Option<i64>, Option<i64>),
    Touching(i64, i64),
    Within(i64, i64),
    InCategory(&'a String),
    Closed,
}

impl<'a> Picker<'a> {
    spec fn filter(&self) -> RowFilter {
        match self {
            Picker::StartBetween(from, to) => RowFilter::StartBetween {
                earliest: crate::window::opt_int(*from),
                latest: crate::window::opt_int(*to),
            },
            Picker::Touching(from, to) => RowFilter::Touching { from: *from as int, to: *to as int },
            Picker::Within(from, to) => RowFilter::Within { from: *from as int, to: *to as int },
            Picker::InCategory(name) => RowFilter::InCategory { name: name@ },
            Picker::Closed => RowFilter::Closed,
        }
    }

    fn accepts(&self, w: &TimeWindow) -> (r: bool)
        ensures
            r == self.filter().accepts(w@),
    {
        match self {
            Picker::StartBetween(from, to) => {
                let after = match from {
                    Some(a) => w.start_time >= *a,
                    None => true,
                };
                let before = match to {
                    Some(b) => w.start_time <= *b,
                    None => true,
                };
                after && before
            },
            Picker::Touching(from, to) => {
                let start_in = *from <= w.start_time && w.start_time <= *to;
                let end_in = match w.end_time {
                    Some(e) => *from <= e && e <= *to,
                    None => false,
                };
                start_in || end_in
            },
            Picker::Within(from, to) => {
                let end_in = match w.end_time {
                    Some(e) => e <= *to,
                    None => false,
                };
                w.start_time >= *from && end_in
            },
            Picker::InCategory(name) => w.category == **name,
            Picker::Closed => w.end_time.is_some(),
        }
    }

    /// Copies of the windows in `times` of which the filter gives `keep`.
    fn pick(&self, times: &Vec<TimeWindow>, keep: bool) -> (r: Vec<TimeWindow>)
        ensures
            models(r@) == chosen(models(times@), self.filter(), keep),
    {
        let mut out: Vec<TimeWindow> = Vec::new();
        let mut i: usize = 0;
        proof {
            assert(models(out@) =~= chosen(models(times@).take(0), self.filter(), keep));
        }
        while i < times.len()
            invariant
                i <= times@.len(),
                models(out@) == chosen(models(times@).take(i as int), self.filter(), keep),
            decreases times@.len() - i,
        {
            proof {
                assert(models(times@).take(i + 1).drop_last() =~= models(times@).take(i as int));
                assert(models(times@).take(i + 1).last() == times@[i as int]@);
            }
            if self.accepts(&times[i]) == keep {
                let ghost before = out@;
                let row = times[i].duplicate();
                out.push(row);
                proof {
                    assert(models(out@) =~= models(before).push(row@));
                }
            }
            i += 1;
        }
        proof {
            assert(models(times@).take(i as int) =~= models(times@));
        }
        out
    }
}

impl Ledger {
    /// Two stores hold the same categories, options and windows.
    pub open spec fn same_content(&self, other: &Ledger) -> bool {
        &&& self.rows() == other.rows()
        &&& self.category_names() == other.category_names()
        &&& self.option_pairs() == other.option_pairs()
        &&& self.last_id() == other.last_id()
    }

    /// Replaces the stored windows by those that `picker` does not accept
    /// and returns how many went.
    fn delete_where(&mut self, picker: &Picker) -> (n: usize)
        requires
            old(self).wf(),
        ensures
            final(self).wf(),
            final(self).rows() == chosen(old(self).rows(), picker.filter(), false),
            final(self).category_names() == old(self).category_names(),
            final(self).option_pairs() == old(self).option_pairs(),
            final(self).last_id() == old(self).last_id(),
            n == old(self).rows().len() - final(self).rows().len(),
    {
        let before = self.times.len();
        let rest = picker.pick(&self.times, false);
        proof {
            assert(models(self.times@) =~= self.rows());
            lemma_chosen_wf(self.rows(), self.category_names(), picker.filter(), false);
        }
        self.times = rest;
        proof {
            assert(models(self.times@) =~= self.rows());
            assert(self.category_names() =~= old(self).category_names());
        }
        before - self.times.len()
    }
}

/// The stored window with the id `id`; [`TTError::NotFound`] where there is none.
pub fn get_time(ledger: &Ledger, id: i64) -> (res: Result<TimeWindow, TTError>)
    requires
        ledger.wf(),
    ensures
        res is Ok == has_id(ledger.rows(), id as int),
        res matches Ok(w) ==> w@ == ledger.rows()[position_of(ledger.rows(), id as int)]
            && w@.id == Some(id as int),
        res matches Err(e) ==> e == TTError::NotFound,
{
    match ledger.find(id) {
        Some(i) => Ok(ledger.times[i].duplicate()),
        None => Err(TTError::NotFound),
    }
}

/// `k` is the position of the open window that counts as the last: none
/// starts later, and none before it in stored order starts as late.
pub open spec fn is_last_open(rows: Seq<WindowModel>, k: int) -> bool {
    &&& 0 <= k < rows.len()
    &&& rows[k].is_open()
    &&& forall|j: int|
        0 <= j < rows.len() && (#[trigger] rows[j]).is_open() ==> rows[j].start_time
            <= rows[k].start_time
    &&& forall|j: int|
        0 <= j < k && (#[trigger] rows[j]).is_open() ==> rows[j].start_time < rows[k].start_time
}

/// Some stored window is open.
pub open spec fn has_open(rows: Seq<WindowModel>) -> bool {
    exists|i: int| 0 <= i < rows.len() && (#[trigger] rows[i]).is_open()
}

/// The open window that started last, if any window is open. Of several
/// that started at the same time, the first in stored order is returned.
pub fn get_last_open_time(ledger: &Ledger) -> (res: Result<Option<TimeWindow>, TTError>)
    requires
        ledger.wf(),
    ensures
        res is Ok,
        res matches Ok(found) && (found is Some == has_open(ledger.rows())) && (found matches Some(w)
            ==> exists|k: int| is_last_open(ledger.rows(), k) && w@ == ledger.rows()[k]),
{
    let mut best: Option<usize> = None;
    let mut i: usize = 0;
    while i < ledger.times.len()
        invariant
            i <= ledger.times@.len(),
            best is None ==> forall|j: int| 0 <= j < i ==> !(#[trigger] ledger.rows()[j]).is_open(),
            best matches Some(k) ==> k < i && ledger.rows()[k as int].is_open() && (forall|j: int|
                0 <= j < i && (#[trigger] ledger.rows()[j]).is_open() ==> ledger.rows()[j].start_time
                    <= ledger.rows()[k as int].start_time) && (forall|j: int|
                0 <= j < k && (#[trigger] ledger.rows()[j]).is_open() ==> ledger.rows()[j].start_time
                    < ledger.rows()[k as int].start_time),
        decreases ledger.times@.len() - i,
    {
        if ledger.times[i].end_time.is_none() {
            assert(ledger.rows()[i as int].is_open());
            let better = match best {
                Some(k) => ledger.times[i].start_time > ledger.times[k].start_time,
                None => true,
            };
            if better {
                best = Some(i);
            }
        }
        i += 1;
    }
    match best {
        Some(k) => {
            let w = ledger.times[k].duplicate();
            assert(is_last_open(ledger.rows(), k as int) && w@ == ledger.rows()[k as int]);
            Ok(Some(w))
        },
        None => Ok(None),
    }
}

/// Deletes the stored window with the id `id` and returns how many windows
/// went: 1, or 0 where no window has that id.
pub fn delete_time(ledger: &mut Ledger, id: &i64) -> (res: Result<usize, TTError>)
    requires
        old(ledger).wf(),
    ensures
        final(ledger).wf(),
        final(ledger).category_names() == old(ledger).category_names(),
        final(ledger).option_pairs() == old(ledger).option_pairs(),
        final(ledger).last_id() == old(ledger).last_id(),
        res matches Ok(n) && n == (if has_id(old(ledger).rows(), *id as int) {
            1usize
        } else {
            0usize
        }),
        has_id(old(ledger).rows(), *id as int) ==> final(ledger).rows() == old(ledger).rows().remove(
            position_of(old(ledger).rows(), *id as int),
        ),
        !has_id(old(ledger).rows(), *id as int) ==> final(ledger).rows() == old(ledger).rows(),
{
    match ledger.find(*id) {
        Some(i) => {
            let ghost rows = ledger.rows();
            ledger.times.remove(i);
            proof {
                assert(ledger.rows() =~= rows.remove(i as int));
                assert(ledger.category_names() =~= old(ledger).category_names());
                let after = ledger.rows();
                assert forall|a: int, b: int| 0 <= a < b < after.len() implies (#[trigger] after[a]).id
                    != (#[trigger] after[b]).id by {
                    let a0 = if a < i { a } else { a + 1 };
                    let b0 = if b < i { b } else { b + 1 };
                    assert(rows[a0].id != rows[b0].id);
                }
                assert forall|a: int| 0 <= a < after.len() implies (#[trigger] after[a]).id is Some
                    && after[a].valid() && ledger.category_names().contains(after[a].category) by {
                    let a0 = if a < i { a } else { a + 1 };
                    assert(after[a] == rows[a0]);
                }
            }
            Ok(1)
        },
        None => Ok(0),
    }
}

/// The stored windows whose start is not before `start_date` and not after
/// `end_date`, each bound where it is given, in stored order.
pub fn get_times(ledger: &Ledger, start_date: Option<i64>, end_date: Option<i64>) -> (res: Result<
    Vec<TimeWindow>,
    TTError,
>)
    requires
        ledger.wf(),
    ensures
        res matches Ok(times) && models(times@) == chosen(
            ledger.rows(),
            RowFilter::StartBetween {
                earliest: crate::window::opt_int(start_date),
                latest: crate::window::opt_int(end_date),
            },
            true,
        ),
{
    let picker = Picker::StartBetween(start_date, end_date);
    let times = picker.pick(&ledger.times, true);
    proof {
        assert(models(ledger.times@) =~= ledger.rows());
    }
    Ok(times)
}

/// The message of the error for a range that does not end after its start.
pub open spec fn range_message(start: int, end: int) -> Seq<char> {
    "end time ("@ + crate::text::decimal(end) + ") must be greater than start time ("@
        + crate::text::decimal(start) + ")"@
}

/// Deletes the stored windows that the range from `start_time` to `end_time`
/// selects and returns how many went. Where `non_inclusive` is set, a window
/// goes only if it is closed and lies entirely in the range; otherwise it
/// goes if its start or its end lies in the range. A range that does not end
/// after its start is refused, and the store stays as it was.
pub fn bulk_delete_times(
    ledger: &mut Ledger,
    start_time: &i64,
    end_time: &i64,
    non_inclusive: &bool,
) -> (res: Result<usize, TTError>)
    requires
        old(ledger).wf(),
    ensures
        final(ledger).wf(),
        final(ledger).category_names() == old(ledger).category_names(),
        final(ledger).option_pairs() == old(ledger).option_pairs(),
        final(ledger).last_id() == old(ledger).last_id(),
        res is Ok == (*end_time > *start_time),
        res matches Ok(n) ==> final(ledger).rows() == chosen(
            old(ledger).rows(),
            bulk_filter(*start_time as int, *end_time as int, *non_inclusive),
            false,
        ) && n == old(ledger).rows().len() - final(ledger).rows().len(),
        res matches Err(e) ==> final(ledger).rows() == old(ledger).rows() && (e matches TTError::TTError {
            message,
        } && message@ == range_message(*start_time as int, *end_time as int)),
{
    if !(*end_time > *start_time) {
        let mut message = "end time (".to_string();
        crate::text::push_signed(&mut message, *end_time);
        message.append(") must be greater than start time (");
        crate::text::push_signed(&mut message, *start_time);
        message.append(")");
        return Err(TTError::TTError { message });
    }
    let n = if *non_inclusive {
        ledger.delete_where(&Picker::Within(*start_time, *end_time))
    } else {
        ledger.delete_where(&Picker::Touching(*start_time, *end_time))
    };
    Ok(n)
}


/// The rows with every open window closed at `now`.
pub open spec fn closed_at(rows: Seq<WindowModel>, now: int) -> Seq<WindowModel> {
    Seq::new(
        rows.len(),
        |i: int|
            if rows[i].is_open() {
                WindowModel { end_time: Some(now), ..rows[i] }
            } else {
                rows[i]
            },
    )
}

/// Some open window starts after `t`.
pub open spec fn open_after(rows: Seq<WindowModel>, t: int) -> bool {
    exists|i: int| 0 <= i < rows.len() && (#[trigger] rows[i]).is_open() && rows[i].start_time > t
}

/// A new open window of `category` that starts at `now`.
pub open spec fn opening(category: Seq<char>, now: int) -> WindowModel {
    WindowModel { id: None, category, start_time: now, end_time: None }
}

/// The names without `name`, where it is among them.
pub open spec fn without_name(cats: Seq<Seq<char>>, name: Seq<char>) -> Seq<Seq<char>> {
    if cats.contains(name) {
        cats.remove(cats.index_of(name))
    } else {
        cats
    }
}

/// Some stored window is logged against the category `name`.
pub open spec fn in_use(rows: Seq<WindowModel>, name: Seq<char>) -> bool {
    exists|i: int| 0 <= i < rows.len() && (#[trigger] rows[i]).category == name
}

/// The rows with every window of the category `from` moved to the category `to`.
pub open spec fn recategorized(rows: Seq<WindowModel>, from: Seq<char>, to: Seq<char>) -> Seq<
    WindowModel,
> {
    Seq::new(
        rows.len(),
        |i: int|
            if rows[i].category == from {
                WindowModel { category: to, ..rows[i] }
            } else {
                rows[i]
            },
    )
}

impl Ledger {
    /// The stored windows, in stored order.
    pub fn windows(&self) -> (r: &Vec<TimeWindow>)
        ensures
            models(r@) == self.rows(),
    {
        proof {
            assert(models(self.times@) =~= self.rows());
        }
        &self.times
    }

    /// A copy of the store.
    pub fn snapshot(&self) -> (r: Ledger)
        requires
            self.wf(),
        ensures
            r.wf(),
            r.same_content(self),
    {
        let mut categories: Vec<String> = Vec::new();
        let mut i: usize = 0;
        while i < self.categories.len()
            invariant
                i <= self.categories@.len(),
                categories@.len() == i,
                forall|j: int| 0 <= j < i ==> categories@[j]@ == self.categories@[j]@,
            decreases self.categories@.len() - i,
        {
            categories.push(self.categories[i].clone());
            i += 1;
        }
        let mut times: Vec<TimeWindow> = Vec::new();
        let mut k: usize = 0;
        while k < self.times.len()
            invariant
                k <= self.times@.len(),
                times@.len() == k,
                forall|j: int| 0 <= j < k ==> times@[j]@ == self.times@[j]@,
            decreases self.times@.len() - k,
        {
            times.push(self.times[k].duplicate());
            k += 1;
        }
        let end_of_day = match &self.end_of_day {
            Some(v) => Some(v.clone()),
            None => None,
        };
        let r = Ledger { categories, end_of_day, times, last_rowid: self.last_rowid };
        proof {
            assert(r.rows() =~= self.rows());
            assert(r.category_names() =~= self.category_names());
        }
        r
    }

    /// The position of the category `name`, if it is stored.
    fn find_category(&self, name: &String) -> (r: Option<usize>)
        ensures
            r is Some == self.category_names().contains(name@),
            r matches Some(i) ==> i < self.categories@.len() && self.category_names()[i as int]
                == name@,
    {
        let mut i: usize = 0;
        while i < self.categories.len()
            invariant
                i <= self.categories@.len(),
                forall|j: int| 0 <= j < i ==> self.category_names()[j] != name@,
            decreases self.categories@.len() - i,
        {
            if self.categories[i] == *name {
                assert(self.category_names()[i as int] == name@);
                return Some(i);
            }
            i += 1;
        }
        None
    }

    /// Whether a stored window is logged against the category `name`.
    pub fn category_in_use(&self, name: &String) -> (r: bool)
        ensures
            r == in_use(self.rows(), name@),
    {
        let mut i: usize = 0;
        while i < self.times.len()
            invariant
                i <= self.times@.len(),
                forall|j: int| 0 <= j < i ==> (#[trigger] self.rows()[j]).category != name@,
            decreases self.times@.len() - i,
        {
            if self.times[i].category == *name {
                assert(self.rows()[i as int].category == name@);
                return true;
            }
            i += 1;
        }
        false
    }

    /// The stored time of day that ends the working day, as it was written.
    pub fn end_of_day(&self) -> (r: Option<String>)
        ensures
            match r {
                Some(v) => self.option_pairs() == seq![(end_of_day_name(), v@)],
                None => self.option_pairs() == Seq::<(Seq<char>, Seq<char>)>::empty(),
            },
    {
        match &self.end_of_day {
            Some(v) => Some(v.clone()),
            None => None,
        }
    }

    /// Stores `value` as the time of day that ends the working day, or
    /// removes the stored one where `value` is `None`.
    pub(crate) fn put_end_of_day(&mut self, value: Option<String>)
        ensures
            final(self).rows() == old(self).rows(),
            final(self).category_names() == old(self).category_names(),
            final(self).last_id() == old(self).last_id(),
            match value {
                Some(v) => final(self).option_pairs() == seq![(end_of_day_name(), v@)],
                None => final(self).option_pairs() == Seq::<(Seq<char>, Seq<char>)>::empty(),
            },
    {
        self.end_of_day = value;
    }
}

/// Closes every open window at `now`. Where an open window starts after
/// `now`, nothing is closed and the store stays as it was.
pub fn end_open_times_immediately(ledger: &mut Ledger, now: i64) -> (res: Result<(), TTError>)
    requires
        old(ledger).wf(),
    ensures
        final(ledger).wf(),
        final(ledger).category_names() == old(ledger).category_names(),
        final(ledger).option_pairs() == old(ledger).option_pairs(),
        final(ledger).last_id() == old(ledger).last_id(),
        res is Ok == !open_after(old(ledger).rows(), now as int),
        res is Ok ==> final(ledger).rows() == closed_at(old(ledger).rows(), now as int),
        res matches Err(e) ==> final(ledger).rows() == old(ledger).rows() && (
        e matches TTError::TTError { message } && message@ == closes_before_start_message()),
{
    let mut out: Vec<TimeWindow> = Vec::new();
    let mut i: usize = 0;
    while i < ledger.times.len()
        invariant
            i <= ledger.times@.len(),
            *ledger == *old(ledger),
            ledger.wf(),
            out@.len() == i,
            forall|j: int|
                0 <= j < i ==> !((#[trigger] ledger.rows()[j]).is_open() && ledger.rows()[j].start_time
                    > now),
            forall|j: int| 0 <= j < i ==> (#[trigger] out@[j])@ == closed_at(ledger.rows(), now as int)[j],
        decreases ledger.times@.len() - i,
    {
        let row = &ledger.times[i];
        let end_time = match row.end_time {
            Some(e) => Some(e),
            None => {
                if row.start_time > now {
                    assert(ledger.rows()[i as int].is_open());
                    return Err(
                        TTError::TTError {
                            message: "an open window starts after the time to close it at".to_string(),
                        },
                    );
                }
                Some(now)
            },
        };
        out.push(
            TimeWindow {
                id: row.id,
                category: row.category.clone(),
                start_time: row.start_time,
                end_time,
            },
        );
        i += 1;
    }
    let ghost rows = ledger.rows();
    ledger.times = out;
    proof {
        assert(ledger.rows() =~= closed_at(rows, now as int));
        assert(ledger.category_names() =~= old(ledger).category_names());
        let after = ledger.rows();
        assert forall|a: int, b: int| 0 <= a < b < after.len() implies (#[trigger] after[a]).id != (
        #[trigger] after[b]).id by {
            assert(rows[a].id != rows[b].id);
        }
        assert forall|a: int| 0 <= a < after.len() implies (#[trigger] after[a]).id is Some
            && after[a].valid() && ledger.category_names().contains(after[a].category) by {
            assert(rows[a].id is Some && rows[a].valid());
        }
    }
    Ok(())
}

/// Starts timing `category` at `now`: writes a new open window, as
/// [`upsert_time`] does, and so with its refusals.
pub fn start_timing(ledger: &mut Ledger, category: &String, now: i64) -> (res: Result<(), TTError>)
    requires
        old(ledger).wf(),
    ensures
        final(ledger).wf(),
        final(ledger).category_names() == old(ledger).category_names(),
        final(ledger).option_pairs() == old(ledger).option_pairs(),
        res is Ok == upsert_accepts(
            old(ledger).rows(),
            old(ledger).category_names(),
            opening(category@, now as int),
        ),
        res is Ok ==> final(ledger).rows() == old(ledger).rows().push(
            WindowModel {
                id: Some(next_id(old(ledger).rows())),
                ..opening(category@, now as int)
            },
        ) && final(ledger).last_id() == next_id(old(ledger).rows()),
        res is Err ==> *final(ledger) == *old(ledger),
        res matches Err(e) ==> refusal(
            old(ledger).rows(),
            old(ledger).category_names(),
            opening(category@, now as int),
            e,
        ),
{
    let time = TimeWindow { id: None, category: category.clone(), start_time: now, end_time: None };
    proof {
        lemma_next_id_new(ledger.rows());
    }
    upsert_time(ledger, time)
}

/// Stores a new category. A name that is stored already is refused.
pub fn add_category(ledger: &mut Ledger, category_name: &String) -> (res: Result<(), TTError>)
    requires
        old(ledger).wf(),
    ensures
        final(ledger).wf(),
        final(ledger).rows() == old(ledger).rows(),
        final(ledger).option_pairs() == old(ledger).option_pairs(),
        final(ledger).last_id() == old(ledger).last_id(),
        res is Ok == !old(ledger).category_names().contains(category_name@),
        res is Ok ==> final(ledger).category_names() == old(ledger).category_names().push(
            category_name@,
        ),
        res matches Err(e) ==> final(ledger).category_names() == old(ledger).category_names()
            && (e matches TTError::TTError { message } && message@ == category_exists_message()),
{
    if ledger.has_category(category_name) {
        return Err(TTError::TTError { message: "the category exists already".to_string() });
    }
    let ghost cats = ledger.category_names();
    ledger.categories.push(category_name.clone());
    proof {
        assert(ledger.category_names() =~= cats.push(category_name@));
        assert(ledger.rows() =~= old(ledger).rows());
        let rows = ledger.rows();
        assert forall|i: int| 0 <= i < rows.len() implies cats.push(category_name@).contains(
            (#[trigger] rows[i]).category,
        ) by {
            let k = choose|k: int| 0 <= k < cats.len() && cats[k] == rows[i].category;
            assert(cats.push(category_name@)[k] == rows[i].category);
        }
    }
    Ok(())
}

/// Deletes the category `category_name`. Where windows are logged against
/// it, they go with it if `delete_logged_times` is set, and otherwise the
/// deletion is refused with [`TTError::Integrity`]. Without
/// `delete_logged_times` a category that is not stored is refused with
/// [`TTError::NotFound`]. A refusal leaves the store as it was.
pub fn delete_category(
    ledger: &mut Ledger,
    category_name: &String,
    delete_logged_times: &bool,
) -> (res: Result<(), TTError>)
    requires
        old(ledger).wf(),
    ensures
        final(ledger).wf(),
        final(ledger).option_pairs() == old(ledger).option_pairs(),
        final(ledger).last_id() == old(ledger).last_id(),
        res is Ok == (*delete_logged_times || (old(ledger).category_names().contains(category_name@)
            && !in_use(old(ledger).rows(), category_name@))),
        res is Ok ==> final(ledger).rows() == chosen(
            old(ledger).rows(),
            RowFilter::InCategory { name: category_name@ },
            false,
        ) && final(ledger).category_names() == without_name(
            old(ledger).category_names(),
            category_name@,
        ) && !final(ledger).category_names().contains(category_name@),
        res matches Err(e) ==> final(ledger).rows() == old(ledger).rows()
            && final(ledger).category_names() == old(ledger).category_names()
            && (e == TTError::Integrity
            <==> old(ledger).category_names().contains(category_name@)) && (e == TTError::NotFound
            <==> !old(ledger).category_names().contains(category_name@)),
{
    let found = ledger.find_category(category_name);
    if !*delete_logged_times {
        if found.is_none() {
            return Err(TTError::NotFound);
        }
        if ledger.category_in_use(category_name) {
            return Err(TTError::Integrity);
        }
    }
    let ghost rows = ledger.rows();
    let ghost cats = ledger.category_names();
    let picker = Picker::InCategory(category_name);
    let _gone = ledger.delete_where(&picker);
    proof {
        lemma_chosen_excludes(rows, picker.filter());
    }
    match found {
        Some(i) => {
            ledger.categories.remove(i);
            proof {
                let at = cats.index_of(category_name@);
                assert(cats[i as int] == category_name@);
                assert(cats.contains(category_name@));
                assert(0 <= at < cats.len() && cats[at] == category_name@);
                assert(at == i);
                assert(ledger.category_names() =~= cats.remove(i as int));
                assert(ledger.rows() =~= chosen(rows, picker.filter(), false));
                let after = cats.remove(i as int);
                assert(!after.contains(category_name@)) by {
                    if after.contains(category_name@) {
                        let k = choose|k: int| 0 <= k < after.len() && after[k] == category_name@;
                        let k2 = if k < i { k } else { k + 1 };
                        assert(cats[k2] == cats[i as int]);
                    }
                }
                assert(after.no_duplicates()) by {
                    assert forall|a: int, b: int|
                        0 <= a < after.len() && 0 <= b < after.len() && a != b implies after[a]
                        != after[b] by {
                        let a2 = if a < i { a } else { a + 1 };
                        let b2 = if b < i { b } else { b + 1 };
                        assert(cats[a2] != cats[b2]);
                    }
                }
                let kept = ledger.rows();
                assert forall|a: int| 0 <= a < kept.len() implies after.contains(
                    (#[trigger] kept[a]).category,
                ) by {
                    assert(cats.contains(kept[a].category));
                    assert(kept[a].category != category_name@);
                    let k = choose|k: int| 0 <= k < cats.len() && cats[k] == kept[a].category;
                    let k2 = if k < i { k } else { k - 1 };
                    assert(after[k2] == kept[a].category);
                }
            }
        },
        None => {
            proof {
                assert(!in_use(rows, category_name@)) by {
                    if in_use(rows, category_name@) {
                        let k = choose|k: int|
                            0 <= k < rows.len() && (#[trigger] rows[k]).category == category_name@;
                        assert(cats.contains(rows[k].category));
                    }
                }
            }
        },
    }
    Ok(())
}

/// None of what is left after the windows that `filter` accepts are taken
/// out is accepted by it.
pub proof fn lemma_chosen_excludes(rows: Seq<WindowModel>, filter: RowFilter)
    ensures
        forall|k: int|
            0 <= k < chosen(rows, filter, false).len() ==> !filter.accepts(
                #[trigger] chosen(rows, filter, false)[k],
            ),
    decreases rows.len(),
{
    if rows.len() > 0 {
        lemma_chosen_excludes(rows.drop_last(), filter);
        let before = chosen(rows.drop_last(), filter, false);
        let after = chosen(rows, filter, false);
        assert forall|k: int| 0 <= k < after.len() implies !filter.accepts(#[trigger] after[k]) by {
            if k < before.len() {
                assert(after[k] == before[k]);
            }
        }
    }
}

/// Renames the category `old_name` to `new_name`; the windows logged against
/// it follow. A category that is not stored is refused with
/// [`TTError::NotFound`], and a new name that another category bears with
/// [`TTError::TTError`]. A refusal leaves the store as it was.
pub fn rename_category(ledger: &mut Ledger, old_name: &String, new_name: &String) -> (res: Result<
    (),
    TTError,
>)
    requires
        old(ledger).wf(),
    ensures
        final(ledger).wf(),
        final(ledger).option_pairs() == old(ledger).option_pairs(),
        final(ledger).last_id() == old(ledger).last_id(),
        res is Ok == (old(ledger).category_names().contains(old_name@) && (new_name@ == old_name@
            || !old(ledger).category_names().contains(new_name@))),
        res is Ok ==> final(ledger).rows() == recategorized(
            old(ledger).rows(),
            old_name@,
            new_name@,
        ) && final(ledger).category_names() == old(ledger).category_names().update(
            old(ledger).category_names().index_of(old_name@),
            new_name@,
        ),
        res matches Err(e) ==> final(ledger).rows() == old(ledger).rows()
            && final(ledger).category_names() == old(ledger).category_names()
            && (if old(ledger).category_names().contains(old_name@) {
            e matches TTError::TTError { message } && message@ == name_in_use_message()
        } else {
            e == TTError::NotFound
        }),
{
    let at = match ledger.find_category(old_name) {
        Some(i) => i,
        None => {
            return Err(TTError::NotFound);
        },
    };
    let same = *old_name == *new_name;
    if !same && ledger.has_category(new_name) {
        return Err(TTError::TTError { message: "the new category name is in use".to_string() });
    }
    let ghost rows = ledger.rows();
    let ghost cats = ledger.category_names();
    proof {
        let k = cats.index_of(old_name@);
        assert(cats[at as int] == old_name@);
        assert(cats.contains(old_name@));
        assert(0 <= k < cats.len() && cats[k] == old_name@);
        assert(k == at);
    }
    let mut out: Vec<TimeWindow> = Vec::new();
    let mut i: usize = 0;
    while i < ledger.times.len()
        invariant
            i <= ledger.times@.len(),
            *ledger == *old(ledger),
            out@.len() == i,
            forall|j: int|
                0 <= j < i ==> (#[trigger] out@[j])@ == recategorized(
                    ledger.rows(),
                    old_name@,
                    new_name@,
                )[j],
        decreases ledger.times@.len() - i,
    {
        let row = &ledger.times[i];
        let category = if row.category == *old_name {
            new_name.clone()
        } else {
            row.category.clone()
        };
        out.push(
            TimeWindow { id: row.id, category, start_time: row.start_time, end_time: row.end_time },
        );
        i += 1;
    }
    ledger.times = out;
    ledger.categories.set(at, new_name.clone());
    proof {
        assert(ledger.rows() =~= recategorized(rows, old_name@, new_name@));
        assert(ledger.category_names() =~= cats.update(at as int, new_name@));
        let names = ledger.category_names();
        let after = ledger.rows();
        assert(names.no_duplicates()) by {
            assert forall|a: int, b: int|
                0 <= a < names.len() && 0 <= b < names.len() && a != b implies names[a]
                != names[b] by {
                assert(cats[a] != cats[b]);
                if a == at && !same {
                    assert(cats.contains(cats[b]));
                }
                if b == at && !same {
                    assert(cats.contains(cats[a]));
                }
            }
        }
        assert forall|a: int, b: int| 0 <= a < b < after.len() implies (#[trigger] after[a]).id != (
        #[trigger] after[b]).id by {
            assert(rows[a].id != rows[b].id);
        }
        assert forall|a: int| 0 <= a < after.len() implies (#[trigger] after[a]).id is Some
            && after[a].valid() && names.contains(after[a].category) by {
            assert(rows[a].id is Some && rows[a].valid());
            if rows[a].category == old_name@ {
                assert(names[at as int] == new_name@);
            } else {
                let k = choose|k: int| 0 <= k < cats.len() && cats[k] == rows[a].category;
                assert(names[k] == rows[a].category);
            }
        }
    }
    Ok(())
}


/// Copies of the closed windows among `times`, in their order.
pub fn closed_times(times: &Vec<TimeWindow>) -> (r: Vec<TimeWindow>)
    ensures
        models(r@) == chosen(models(times@), RowFilter::Closed, true),
{
    Picker::Closed.pick(times, true)
}

/// The texts of a vector of strings.
pub open spec fn names(v: Seq<String>) -> Seq<Seq<char>> {
    Seq::new(v.len(), |i: int| v[i]@)
}

/// Whether no name occurs twice in `v`.
fn distinct_names(v: &Vec<String>) -> (r: bool)
    ensures
        r == names(v@).no_duplicates(),
{
    let mut i: usize = 0;
    while i < v.len()
        invariant
            i <= v@.len(),
            forall|a: int, b: int| 0 <= a < i && a < b < v@.len() ==> names(v@)[a] != names(v@)[b],
        decreases v@.len() - i,
    {
        let mut j: usize = i + 1;
        while j < v.len()
            invariant
                i < j <= v@.len(),
                forall|b: int| i < b < j ==> names(v@)[i as int] != names(v@)[b],
            decreases v@.len() - j,
        {
            if v[i] == v[j] {
                assert(names(v@)[i as int] == names(v@)[j as int]);
                return false;
            }
            j += 1;
        }
        i += 1;
    }
    proof {
        assert forall|a: int, b: int|
            0 <= a < names(v@).len() && 0 <= b < names(v@).len() && a != b implies names(v@)[a]
            != names(v@)[b] by {
            if a < b {
                assert(names(v@)[a] != names(v@)[b]);
            } else {
                assert(names(v@)[b] != names(v@)[a]);
            }
        }
    }
    true
}

/// Whether `name` is among `v`.
fn name_in(v: &Vec<String>, name: &String) -> (r: bool)
    ensures
        r == names(v@).contains(name@),
{
    let mut i: usize = 0;
    while i < v.len()
        invariant
            i <= v@.len(),
            forall|j: int| 0 <= j < i ==> names(v@)[j] != name@,
        decreases v@.len() - i,
    {
        if v[i] == *name {
            assert(names(v@)[i as int] == name@);
            return true;
        }
        i += 1;
    }
    false
}

/// Whether every window of `times` has an id, is valid on its own and names one of `categories`.
fn each_row_fits(times: &Vec<TimeWindow>, categories: &Vec<String>) -> (r: bool)
    ensures
        r == (forall|i: int|
            0 <= i < times@.len() ==> (#[trigger] models(times@)[i]).id is Some && models(
                times@,
            )[i].valid() && names(categories@).contains(models(times@)[i].category)),
{
    let mut i: usize = 0;
    while i < times.len()
        invariant
            i <= times@.len(),
            forall|j: int|
                0 <= j < i ==> (#[trigger] models(times@)[j]).id is Some && models(times@)[j].valid()
                    && names(categories@).contains(models(times@)[j].category),
        decreases times@.len() - i,
    {
        let fits = times[i].id.is_some() && times[i].is_valid() && name_in(
            categories,
            &times[i].category,
        );
        if !fits {
            assert(models(times@)[i as int] == times@[i as int]@);
            return false;
        }
        assert(models(times@)[i as int] == times@[i as int]@);
        i += 1;
    }
    true
}

/// Whether no id occurs twice among `times`.
fn distinct_ids(times: &Vec<TimeWindow>) -> (r: bool)
    ensures
        r == (forall|a: int, b: int|
            0 <= a < b < times@.len() ==> (#[trigger] models(times@)[a]).id != (#[trigger] models(
                times@,
            )[b]).id),
{
    let mut i: usize = 0;
    while i < times.len()
        invariant
            i <= times@.len(),
            forall|a: int, b: int|
                0 <= a < i && a < b < times@.len() ==> (#[trigger] models(times@)[a]).id != (
                #[trigger] models(times@)[b]).id,
        decreases times@.len() - i,
    {
        let mut j: usize = i + 1;
        while j < times.len()
            invariant
                i < j <= times@.len(),
                forall|b: int|
                    i < b < j ==> models(times@)[i as int].id != (#[trigger] models(times@)[b]).id,
            decreases times@.len() - j,
        {
            if times[i].same_id(&times[j]) {
                assert(models(times@)[i as int].id == models(times@)[j as int].id);
                return false;
            }
            j += 1;
        }
        i += 1;
    }
    true
}

impl Ledger {
    /// A store that holds the given categories, option and windows, where
    /// they are well formed together; `None` where they are not.
    pub fn load(categories: Vec<String>, end_of_day: Option<String>, times: Vec<TimeWindow>) -> (r:
        Option<Ledger>)
        ensures
            r is Some == rows_wf(models(times@), names(categories@)),
            r matches Some(l) ==> l.wf() && l.rows() == models(times@) && l.category_names()
                == names(categories@) && l.last_id() == 0 && (match end_of_day {
                Some(v) => l.option_pairs() == seq![(end_of_day_name(), v@)],
                None => l.option_pairs() == Seq::<(Seq<char>, Seq<char>)>::empty(),
            }),
    {
        if !distinct_names(&categories) || !each_row_fits(&times, &categories) || !distinct_ids(
            &times,
        ) {
            return None;
        }
        let l = Ledger { categories, end_of_day, times, last_rowid: 0 };
        proof {
            assert(l.rows() =~= models(times@));
            assert(l.category_names() =~= names(categories@));
        }
        Some(l)
    }

    /// The names of the stored categories, in stored order.
    pub fn category_list(&self) -> (r: Vec<String>)
        ensures
            names(r@) == self.category_names(),
    {
        let mut out: Vec<String> = Vec::new();
        let mut i: usize = 0;
        while i < self.categories.len()
            invariant
                i <= self.categories@.len(),
                out@.len() == i,
                forall|j: int| 0 <= j < i ==> out@[j]@ == self.categories@[j]@,
            decreases self.categories@.len() - i,
        {
            out.push(self.categories[i].clone());
            i += 1;
        }
        proof {
            assert(names(out@) =~= self.category_names());
        }
        out
    }
}

} // verus!
