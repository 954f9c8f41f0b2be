//! Income and spending of one calendar month.

use crate::date::Date;
use crate::ledger::{Ledger, TransactionView};
use crate::window::{lemma_sum_bounds, lemma_sum_step, sum_of, Window};
use vstd::prelude::*;

verus! {

/// What came in and what went out within a window, in hundredths.
#[derive(Clone, Copy, Debug, PartialEq, Eq, Structural)]
pub struct Overview {
    pub total_income: i128,
    pub total_outgoing: i128,
    pub net: i128,
}

/// What a transaction adds to the income of a window: its negated amount,
/// if the amount is negative and the day lies in the window.
pub open spec fn income_part(w: Window) -> spec_fn(TransactionView) -> int {
    |t: TransactionView|
        if w.holds(t.date) && t.amount < 0 {
            -(t.amount as int)
        } else {
            0
        }
}

/// What a transaction adds to the spending of a window: its amount, if the
/// amount is not negative and the day lies in the window.
pub open spec fn outgoing_part(w: Window) -> spec_fn(TransactionView) -> int {
    |t: TransactionView|
        if w.holds(t.date) && t.amount >= 0 {
            t.amount as int
        } else {
            0
        }
}

/// The overview of the transactions `s` over the window `w`.
pub open spec fn overview_of(s: Seq<TransactionView>, w: Window) -> Overview {
    Overview {
        total_income: sum_of(s, income_part(w)) as i128,
        total_outgoing: sum_of(s, outgoing_part(w)) as i128,
        net: (sum_of(s, income_part(w)) - sum_of(s, outgoing_part(w))) as i128,
    }
}

/// The three figures of an overview are the sums themselves: none of them
/// leaves the range of its type.
pub proof fn lemma_overview_exact(s: Seq<TransactionView>, w: Window)
    requires
        s.len() <= usize::MAX,
    ensures
        overview_of(s, w).total_income == sum_of(s, income_part(w)),
        overview_of(s, w).total_outgoing == sum_of(s, outgoing_part(w)),
        overview_of(s, w).net == sum_of(s, income_part(w)) - sum_of(s, outgoing_part(w)),
        0 <= sum_of(s, income_part(w)),
        0 <= sum_of(s, outgoing_part(w)),
{
    lemma_sum_bounds(s, income_part(w), 0, 0x8000_0000_0000_0000);
    lemma_sum_bounds(s, outgoing_part(w), 0, 0x8000_0000_0000_0000);
    assert(s.len() * 0x8000_0000_0000_0000 <= 0xffff_ffff_ffff_ffff * 0x8000_0000_0000_0000)
        by (nonlinear_arith)
        requires
            s.len() <= 0xffff_ffff_ffff_ffff,
    ;
}

impl Ledger {
    /// Income, spending and their difference over the window `w`. A
    /// transaction with amount zero counts as spending.
    pub fn overview(&self, w: Window) -> (o: Overview)
        ensures
            o == overview_of(self@.transactions, w),
            o.total_income == sum_of(self@.transactions, income_part(w)),
            o.total_outgoing == sum_of(self@.transactions, outgoing_part(w)),
            o.net == o.total_income - o.total_outgoing,
    {
        let ghost txs = self@.transactions;
        let n: usize = self.transactions.len();
        let mut income: i128 = 0;
        let mut outgoing: i128 = 0;
        let mut i: usize = 0;
        assert(txs.take(0).len() == 0);
        while i < n
            invariant
                i <= n,
                n == self.transactions@.len(),
                txs == self@.transactions,
                income == sum_of(txs.take(i as int), income_part(w)),
                outgoing == sum_of(txs.take(i as int), outgoing_part(w)),
            decreases n - i,
        {
            proof {
                lemma_sum_step(txs, income_part(w), i as int);
                lemma_sum_step(txs, outgoing_part(w), i as int);
                lemma_overview_exact(txs.take(i + 1), w);
                lemma_overview_exact(txs.take(i as int), w);
                lemma_sum_bounds(txs.take(i as int), income_part(w), 0, 0x8000_0000_0000_0000);
                lemma_sum_bounds(txs.take(i as int), outgoing_part(w), 0, 0x8000_0000_0000_0000);
                assert(i * 0x8000_0000_0000_0000 <= 0xffff_ffff_ffff_ffff * 0x8000_0000_0000_0000)
                    by (nonlinear_arith)
                    requires
                        i <= 0xffff_ffff_ffff_ffff,
                ;
                assert(txs[i as int] == self.transactions@[i as int]@);
            }
            let tx = &self.transactions[i];
            if w.contains(&tx.date) {
                if tx.amount < 0 {
                    income = income + (-(tx.amount as i128));
                } else {
                    outgoing = outgoing + tx.amount as i128;
                }
            }
            i += 1;
        }
        proof {
            assert(txs.take(n as int) == txs);
            lemma_overview_exact(txs, w);
        }
        Overview { total_income: income, total_outgoing: outgoing, net: income - outgoing }
    }

    /// The overview of the calendar month in which `now` lies.
    pub fn month_overview(&self, now: Date) -> (o: Overview)
        ensures
            o == overview_of(self@.transactions, Window::Month(now)),
    {
        self.overview(Window::Month(now))
    }

    /// The overview of the calendar month that the local clock shows.
    pub fn current_month_overview(&self) -> (o: Overview)
        ensures
            exists|now: Date|
                #[trigger] now.is_calendar_date() && o == overview_of(
                    self@.transactions,
                    Window::Month(now),
                ),
    {
        let now = Date::today();
        self.month_overview(now)
    }
}

} // verus!
