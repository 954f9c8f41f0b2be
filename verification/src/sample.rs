//! The ledger that a first session starts with.

use crate::date::{checked_days_earlier, days_earlier, Date, MIN_YEAR};
use crate::ledger::{
    lemma_recorded_counts, recorded, Budget, BudgetView, EntryView, Ledger, LedgerView,
};
use crate::order::views_of;
use vstd::prelude::*;

verus! {

/// Number of days that the sample looks back for its earlier month.
pub const SAMPLE_LOOK_BACK: u64 = 30;

/// One line of the sample: description, amount, category, day.
pub struct SampleRow {
    pub description: &'static str,
    pub amount: i64,
    pub category: &'static str,
    pub date: Date,
}

impl View for SampleRow {
    type V = EntryView;

    open spec fn view(&self) -> EntryView {
        EntryView {
            description: self.description@,
            amount: self.amount,
            category: self.category@,
            date: self.date,
        }
    }
}

/// The day `day` of the month in which `date` lies.
pub open spec fn on_day(date: Date, day: u32) -> Date {
    Date { year: date.year, month: date.month, day }
}

fn row(description: &'static str, amount: i64, category: &'static str, date: Date) -> (r:
    SampleRow)
    ensures
        r@ == (EntryView { description: description@, amount, category: category@, date }),
{
    SampleRow { description, amount, category, date }
}

/// The lines of the sample for the day `now`, with `earlier` a day of the
/// month before.
pub open spec fn sample_rows(now: Date, earlier: Date) -> Seq<EntryView> {
    seq![
        EntryView {
            description: "Paycheck"@,
            amount: (-410000int) as i64,
            category: "Income"@,
            date: on_day(earlier, 27),
        },
        EntryView {
            description: "Rent"@,
            amount: 170000,
            category: "Housing"@,
            date: on_day(now, 1),
        },
        EntryView {
            description: "Groceries"@,
            amount: 14000,
            category: "Food"@,
            date: on_day(now, 3),
        },
        EntryView {
            description: "Coffee + snacks"@,
            amount: 3250,
            category: "Food"@,
            date: on_day(now, 4),
        },
        EntryView {
            description: "Ride share"@,
            amount: 2400,
            category: "Transport"@,
            date: on_day(now, 5),
        },
        EntryView {
            description: "Utilities"@,
            amount: 22000,
            category: "Housing"@,
            date: on_day(now, 7),
        },
        EntryView {
            description: "Concert night"@,
            amount: 12000,
            category: "Fun"@,
            date: on_day(now, 10),
        },
        EntryView {
            description: "Café cowork"@,
            amount: 1850,
            category: "Work"@,
            date: on_day(now, 12),
        },
        EntryView {
            description: "Savings transfer"@,
            amount: 50000,
            category: "Savings"@,
            date: on_day(now, 15),
        },
        EntryView {
            description: "Bonus"@,
            amount: (-45000int) as i64,
            category: "Income"@,
            date: on_day(now, 16),
        },
        EntryView {
            description: "Groceries"@,
            amount: 9050,
            category: "Food"@,
            date: on_day(now, 18),
        },
        EntryView {
            description: "Gas"@,
            amount: 5800,
            category: "Transport"@,
            date: on_day(now, 21),
        },
        EntryView {
            description: "Streaming"@,
            amount: 2400,
            category: "Fun"@,
            date: on_day(earlier, 16),
        },
    ]
}

/// The budgets of the sample.
pub open spec fn sample_budgets() -> Seq<BudgetView> {
    seq![
        BudgetView { id: 1, category: "Housing"@, monthly_limit: 180000 },
        BudgetView { id: 2, category: "Food"@, monthly_limit: 60000 },
        BudgetView { id: 3, category: "Transport"@, monthly_limit: 25000 },
    ]
}

/// The sample before any transaction is recorded.
pub open spec fn sample_start() -> LedgerView {
    LedgerView {
        transactions: Seq::empty(),
        budgets: sample_budgets(),
        next_tx_id: 1,
        next_budget_id: 4,
    }
}

/// The sample ledger for the day `now`, with `earlier` a day of the month
/// before.
pub open spec fn sample_ledger(now: Date, earlier: Date) -> LedgerView {
    recorded(sample_start(), sample_rows(now, earlier))
}

/// The day whose month is the earlier month of the sample for the day
/// `now`: the day 30 days before `now`, and `now` itself where `chrono`
/// names no such day.
pub open spec fn sample_earlier(now: Date) -> Date {
    match days_earlier(now, SAMPLE_LOOK_BACK) {
        Some(earlier) => earlier,
        None => now,
    }
}

/// The sample ledger for the day `now`.
pub open spec fn sample_of(now: Date) -> LedgerView {
    sample_ledger(now, sample_earlier(now))
}

/// The sample holds its three budgets and thirteen transactions, and has
/// handed out thirteen identifiers for them.
pub proof fn lemma_sample_counts(now: Date, earlier: Date)
    ensures
        sample_ledger(now, earlier).transactions.len() == 13,
        sample_ledger(now, earlier).next_tx_id == 14,
        sample_ledger(now, earlier).budgets == sample_budgets(),
        sample_ledger(now, earlier).next_budget_id == 4,
{
    lemma_recorded_counts(sample_start(), sample_rows(now, earlier));
}

/// The budgets of the sample have three different categories.
proof fn lemma_sample_budgets_distinct()
    ensures
        sample_start().well_formed(),
{
    reveal_strlit("Housing");
    reveal_strlit("Food");
    reveal_strlit("Transport");
    assert("Housing"@.len() == 7);
    assert("Food"@.len() == 4);
    assert("Transport"@.len() == 9);
}

/// The sample before any transaction is recorded.
fn sample_base() -> (ledger: Ledger)
    ensures
        ledger@ == sample_start(),
        ledger@.well_formed(),
{
    let mut budgets: Vec<Budget> = Vec::new();
    budgets.push(Budget { id: 1, category: "Housing".to_owned(), monthly_limit: 180000 });
    budgets.push(Budget { id: 2, category: "Food".to_owned(), monthly_limit: 60000 });
    budgets.push(Budget { id: 3, category: "Transport".to_owned(), monthly_limit: 25000 });
    let ledger = Ledger { transactions: Vec::new(), budgets, next_tx_id: 1, next_budget_id: 4 };
    proof {
        assert(views_of(ledger.budgets@) =~= sample_budgets());
        assert(views_of(ledger.transactions@) =~= Seq::empty());
        lemma_sample_budgets_distinct();
    }
    ledger
}

impl Ledger {
    /// The sample ledger for the day `now`: three budgets, and thirteen
    /// transactions on days of the month of `now` and of the month of
    /// `earlier`.
    pub fn sample_on(now: Date, earlier: Date) -> (ledger: Ledger)
        ensures
            ledger@ == sample_ledger(now, earlier),
            ledger@.well_formed(),
            ledger@.transactions.len() == 13,
            ledger@.next_tx_id == 14,
    {
        let mut ledger = sample_base();
        let late = Date { year: earlier.year, month: earlier.month, day: 27 };
        let mid = Date { year: earlier.year, month: earlier.month, day: 16 };
        let mut rows: Vec<SampleRow> = Vec::new();
        rows.push(row("Paycheck", -410000, "Income", late));
        rows.push(row("Rent", 170000, "Housing", Date { year: now.year, month: now.month, day: 1 }));
        rows.push(
            row("Groceries", 14000, "Food", Date { year: now.year, month: now.month, day: 3 }),
        );
        rows.push(
            row("Coffee + snacks", 3250, "Food", Date { year: now.year, month: now.month, day: 4 }),
        );
        rows.push(
            row("Ride share", 2400, "Transport", Date { year: now.year, month: now.month, day: 5 }),
        );
        rows.push(
            row("Utilities", 22000, "Housing", Date { year: now.year, month: now.month, day: 7 }),
        );
        rows.push(
            row("Concert night", 12000, "Fun", Date { year: now.year, month: now.month, day: 10 }),
        );
        rows.push(
            row("Café cowork", 1850, "Work", Date { year: now.year, month: now.month, day: 12 }),
        );
        rows.push(
            row(
                "Savings transfer",
                50000,
                "Savings",
                Date { year: now.year, month: now.month, day: 15 },
            ),
        );
        rows.push(row("Bonus", -45000, "Income", Date { year: now.year, month: now.month, day: 16 }));
        rows.push(
            row("Groceries", 9050, "Food", Date { year: now.year, month: now.month, day: 18 }),
        );
        rows.push(row("Gas", 5800, "Transport", Date { year: now.year, month: now.month, day: 21 }));
        rows.push(row("Streaming", 2400, "Fun", mid));
        assert(views_of(rows@) =~= sample_rows(now, earlier));
        let ghost lines = sample_rows(now, earlier);
        let n: usize = rows.len();
        let mut i: usize = 0;
        assert(lines.take(0) =~= Seq::empty());
        while i < n
            invariant
                i <= n,
                n == 13,
                n == rows@.len(),
                views_of(rows@) == lines,
                ledger@ == recorded(sample_start(), lines.take(i as int)),
                ledger@.well_formed(),
                ledger@.next_tx_id == 1 + i,
                ledger@.transactions.len() == i,
            decreases n - i,
        {
            proof {
                assert(lines.take(i + 1).drop_last() == lines.take(i as int));
                assert(lines.take(i + 1).last() == lines[i as int]);
                assert(lines[i as int] == rows@[i as int]@);
                crate::order::lemma_arranged_in_order::<crate::ledger::Transaction>(
                    ledger@.transactions.push(
                        crate::ledger::TransactionView {
                            id: ledger@.next_tx_id,
                            description: lines[i as int].description,
                            amount: lines[i as int].amount,
                            category: lines[i as int].category,
                            date: lines[i as int].date,
                        },
                    ),
                );
            }
            ledger.add_transaction(
                rows[i].description,
                rows[i].amount,
                rows[i].category,
                rows[i].date,
            );
            i += 1;
        }
        assert(lines.take(n as int) == lines);
        ledger
    }

    /// The sample ledger for the day `now`, with its earlier month found
    /// 30 days before `now`; where `chrono` names no such day, the month of
    /// `now` stands for the earlier month too.
    pub fn sample_for(now: Date) -> (ledger: Ledger)
        ensures
            ledger@ == sample_of(now),
            ledger@.well_formed(),
            ledger@.transactions.len() == 13,
            ledger@.next_tx_id == 14,
            ledger@.budgets == sample_budgets(),
            ledger@.next_budget_id == 4,
            now.is_calendar_date() ==> sample_earlier(now).is_calendar_date(),
            now.is_calendar_date() && now.year > MIN_YEAR ==> days_earlier(now, SAMPLE_LOOK_BACK)
                == Some(sample_earlier(now)),
    {
        let earlier = match checked_days_earlier(now, SAMPLE_LOOK_BACK) {
            Some(earlier) => earlier,
            None => now,
        };
        proof {
            lemma_sample_counts(now, earlier);
        }
        Ledger::sample_on(now, earlier)
    }

    /// The sample ledger for the day that the local clock shows.
    pub fn with_sample_data() -> (ledger: Ledger)
        ensures
            ledger@.well_formed(),
            ledger@.transactions.len() == 13,
            ledger@.next_tx_id == 14,
            ledger@.budgets == sample_budgets(),
            ledger@.next_budget_id == 4,
            exists|now: Date, earlier: Date|
                #![trigger sample_ledger(now, earlier)]
                now.is_calendar_date() && earlier.is_calendar_date() && ledger@ == sample_ledger(
                    now,
                    earlier,
                ),
    {
        let now = Date::today();
        let ledger = Ledger::sample_for(now);
        assert(now.is_calendar_date() && sample_earlier(now).is_calendar_date() && ledger@
            == sample_ledger(now, sample_earlier(now)));
        ledger
    }
}

impl Default for Ledger {
    /// The sample ledger of [`Ledger::with_sample_data`].
    fn default() -> (ledger: Ledger)
        ensures
            ledger@.well_formed(),
            ledger@.transactions.len() == 13,
            ledger@.next_tx_id == 14,
            ledger@.budgets == sample_budgets(),
            ledger@.next_budget_id == 4,
            exists|now: Date, earlier: Date|
                #![trigger sample_ledger(now, earlier)]
                now.is_calendar_date() && earlier.is_calendar_date() && ledger@ == sample_ledger(
                    now,
                    earlier,
                ),
    {
        Ledger::with_sample_data()
    }
}

} // verus!
