//! Stretches of time over which the ledger is summed up.

use crate::date::{days_earlier, Date, MIN_YEAR};
use crate::ledger::TransactionView;
use vstd::prelude::*;

verus! {

/// A set of days.
#[derive(Clone, Copy, Debug, PartialEq, Eq, Structural)]
pub enum Window {
    /// Every day.
    All,
    /// The days of the calendar month in which the given day lies.
    Month(Date),
    /// The given day and every later one.
    Since(Date),
}

impl Window {
    /// `date` lies in the window.
    pub open spec fn holds(self, date: Date) -> bool {
        match self {
            Window::All => true,
            Window::Month(day) => date.same_month(day),
            Window::Since(first) => !date.precedes(first),
        }
    }

    /// The window that starts `days` days before `now`. Where `chrono`
    /// names no such day, the window holds every day.
    pub open spec fn trailing(now: Date, days: int) -> Window {
        if 0 <= days <= u64::MAX {
            match days_earlier(now, days as u64) {
                Some(first) => Window::Since(first),
                None => Window::All,
            }
        } else {
            Window::All
        }
    }

    /// Decides [`Window::holds`].
    pub fn contains(&self, date: &Date) -> (b: bool)
        ensures
            b == self.holds(*date),
    {
        match self {
            Window::All => true,
            Window::Month(day) => date.in_month_of(day),
            Window::Since(first) => !date.is_before(first),
        }
    }

    /// The window of the last `days` days up to `now`.
    pub fn last_days(now: Date, days: u64) -> (w: Window)
        ensures
            w == Window::trailing(now, days as int),
            w matches Window::Since(first) ==> first.is_calendar_date(),
            now.is_calendar_date() && now.year > MIN_YEAR && days <= 365 ==> w is Since,
    {
        match crate::date::checked_days_earlier(now, days) {
            Some(first) => Window::Since(first),
            None => Window::All,
        }
    }
}

/// The sum of `part` over the transactions `s`.
pub open spec fn sum_of(s: Seq<TransactionView>, part: spec_fn(TransactionView) -> int) -> int
    decreases s.len(),
{
    if s.len() == 0 {
        0
    } else {
        sum_of(s.drop_last(), part) + part(s.last())
    }
}

/// A sum whose parts lie between `low` and `high` lies between the
/// multiples of the two by the number of parts.
pub proof fn lemma_sum_bounds(
    s: Seq<TransactionView>,
    part: spec_fn(TransactionView) -> int,
    low: int,
    high: int,
)
    requires
        forall|t: TransactionView| low <= #[trigger] part(t) <= high,
    ensures
        s.len() * low <= sum_of(s, part) <= s.len() * high,
    decreases s.len(),
{
    if s.len() > 0 {
        lemma_sum_bounds(s.drop_last(), part, low, high);
        assert(s.len() * low == (s.len() - 1) * low + low) by (nonlinear_arith);
        assert(s.len() * high == (s.len() - 1) * high + high) by (nonlinear_arith);
    }
}

/// One more transaction adds its part to the sum.
pub proof fn lemma_sum_step(s: Seq<TransactionView>, part: spec_fn(TransactionView) -> int, i: int)
    requires
        0 <= i < s.len(),
    ensures
        sum_of(s.take(i + 1), part) == sum_of(s.take(i), part) + part(s[i]),
{
    assert(s.take(i + 1).drop_last() == s.take(i));
}

/// A transaction put anywhere into a sequence adds its part to the sum.
pub proof fn lemma_sum_insert(
    s: Seq<TransactionView>,
    part: spec_fn(TransactionView) -> int,
    k: int,
    t: TransactionView,
)
    requires
        0 <= k <= s.len(),
    ensures
        sum_of(s.insert(k, t), part) == sum_of(s, part) + part(t),
    decreases s.len() - k,
{
    let grown = s.insert(k, t);
    if k == s.len() {
        assert(grown.drop_last() == s);
    } else {
        assert(grown.drop_last() == s.drop_last().insert(k, t));
        assert(grown.last() == s.last());
        lemma_sum_insert(s.drop_last(), part, k, t);
    }
}

} // verus!
