//! The time window record and the rule that decides when two windows conflict.

use vstd::prelude::*;

verus! {

/// A stretch of time logged against a category. A window without an end is
/// open: timing is still in progress.
#[derive(PartialEq, Eq, Debug, Clone)]
pub struct TimeWindow {
    pub id: Option<i64>,
    pub category: String,
    pub start_time: i64,
    pub end_time: Option<i64>,
}

/// The mathematical value of a [`TimeWindow`].
pub ghost struct WindowModel {
    pub id: Option<int>,
    pub category: Seq<char>,
    pub start_time: int,
    pub end_time: Option<int>,
}

/// An optional machine integer as an optional mathematical integer.
pub open spec fn opt_int(o: Option<i64>) -> Option<int> {
    match o {
        Some(v) => Some(v as int),
        None => None,
    }
}

impl View for TimeWindow {
    type V = WindowModel;

    open spec fn view(&self) -> WindowModel {
        WindowModel {
            id: opt_int(self.id),
            category: self.category@,
            start_time: self.start_time as int,
            end_time: opt_int(self.end_time),
        }
    }
}

impl WindowModel {
    /// The window is still being timed.
    pub open spec fn is_open(self) -> bool {
        self.end_time is None
    }

    /// The start is not negative and the end, if any, is not before the start.
    pub open spec fn valid(self) -> bool {
        self.start_time >= 0 && (self.end_time matches Some(e) ==> e >= self.start_time)
    }

    /// `t` lies in the closed interval of this window; false of an open window.
    pub open spec fn covers(self, t: int) -> bool {
        self.end_time matches Some(e) && self.start_time <= t <= e
    }

    /// This window, as a candidate for writing, conflicts with the stored
    /// window `existing`: the two have different ids and either an endpoint
    /// of the candidate lies inside the closed `existing`, or `existing` is
    /// open and the candidate does not lie entirely before its start.
    pub open spec fn conflicts_with(self, existing: WindowModel) -> bool {
        self.id != existing.id && (existing.covers(self.start_time) || (self.end_time matches Some(e)
            && existing.covers(e)) || (existing.is_open() && (self.start_time
            >= existing.start_time || (self.end_time matches Some(e) && e
            >= existing.start_time))))
    }

    /// The closed intervals of two closed windows share a point.
    pub open spec fn intersects(self, other: WindowModel) -> bool {
        self.end_time matches Some(e1) && other.end_time matches Some(e2) && self.start_time <= e2
            && other.start_time <= e1
    }

    /// The candidate's closed interval reaches on both sides strictly beyond
    /// that of the closed window `existing`.
    pub open spec fn encloses(self, existing: WindowModel) -> bool {
        self.end_time matches Some(e1) && existing.end_time matches Some(e2) && self.start_time
            < existing.start_time && e2 < e1
    }
}

impl TimeWindow {
    /// A copy of this window.
    pub fn duplicate(&self) -> (r: TimeWindow)
        ensures
            r == *self,
    {
        TimeWindow {
            id: self.id,
            category: self.category.clone(),
            start_time: self.start_time,
            end_time: self.end_time,
        }
    }

    /// Whether the window satisfies the rules on its own fields.
    pub fn is_valid(&self) -> (r: bool)
        ensures
            r == self@.valid(),
    {
        if self.start_time < 0 {
            return false;
        }
        match self.end_time {
            Some(e) => e >= self.start_time,
            None => true,
        }
    }

    /// Whether the two windows carry the same id (two absent ids count as the same).
    pub fn same_id(&self, other: &TimeWindow) -> (r: bool)
        ensures
            r == (self@.id == other@.id),
    {
        match (self.id, other.id) {
            (Some(a), Some(b)) => a == b,
            (None, None) => true,
            _ => false,
        }
    }

    /// Whether this candidate conflicts with the stored window `existing`.
    pub fn conflicts(&self, existing: &TimeWindow) -> (r: bool)
        ensures
            r == self@.conflicts_with(existing@),
    {
        if self.same_id(existing) {
            return false;
        }
        match existing.end_time {
            Some(ee) => {
                let start_inside = self.start_time >= existing.start_time && self.start_time <= ee;
                let end_inside = match self.end_time {
                    Some(e) => e >= existing.start_time && e <= ee,
                    None => false,
                };
                start_inside || end_inside
            },
            None => {
                let end_after = match self.end_time {
                    Some(e) => e >= existing.start_time,
                    None => false,
                };
                self.start_time >= existing.start_time || end_after
            },
        }
    }
}

} // verus!
