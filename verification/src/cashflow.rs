//! Cashflow by calendar month.

use crate::date::Date;
use crate::ledger::{Ledger, TransactionView};
use crate::order::{arranged, lemma_arranged_in_order, sort_ranked, views_of, Ranked};
use crate::text::{
    decimal_of, digit_char, lemma_text_order, lemma_text_precedes_at, lemma_text_precedes_same,
    push_decimal, text_is_before, text_precedes,
};
use crate::window::{lemma_sum_bounds, lemma_sum_step, sum_of, Window};
use vstd::prelude::*;

verus! {

/// Number of days that count for one month of a trailing window.
pub const DAYS_PER_MONTH: u64 = 31;

/// What came in during one calendar month, in hundredths: income counts
/// positive, spending negative.
#[derive(Clone, Copy, Debug, PartialEq, Eq, Structural)]
pub struct MonthTotal {
    pub year: i32,
    pub month: u32,
    pub total: i128,
}

/// A total under the label of its month.
#[derive(Debug, Clone, PartialEq, Eq)]
pub struct LabelledTotal {
    pub label: String,
    pub total: i128,
}

impl View for LabelledTotal {
    type V = (Seq<char>, i128);

    open spec fn view(&self) -> (Seq<char>, i128) {
        (self.label@, self.total)
    }
}

/// Labelled totals stand in the order of their labels.
impl Ranked for LabelledTotal {
    open spec fn outranks(a: (Seq<char>, i128), b: (Seq<char>, i128)) -> bool {
        text_precedes(a.0, b.0)
    }

    fn stands_before(&self, other: &Self) -> (b: bool) {
        text_is_before(self.label.as_str(), other.label.as_str())
    }

    proof fn lemma_ranking(a: (Seq<char>, i128), b: (Seq<char>, i128), c: (Seq<char>, i128)) {
        lemma_text_order(a.0, b.0, c.0);
    }
}

/// The label of a month: the year in decimal digits, with a minus sign in
/// front if it is negative, a hyphen, and the month in at least two decimal
/// digits.
pub open spec fn month_label_of(year: i32, month: u32) -> Seq<char> {
    (if year < 0 {
        seq!['-'] + decimal_of((-year) as nat)
    } else {
        decimal_of(year as nat)
    }) + seq!['-'] + (if month < 10 {
        seq!['0']
    } else {
        Seq::empty()
    }) + decimal_of(month as nat)
}

/// What a transaction adds to the inflow of a month within `w`: its
/// negated amount, if its day lies in the window and in that month.
pub open spec fn inflow_part(w: Window, year: i32, month: u32) -> spec_fn(TransactionView) -> int {
    |t: TransactionView|
        if w.holds(t.date) && t.date.year == year && t.date.month == month {
            -(t.amount as int)
        } else {
            0
        }
}

/// The months of the transactions within `w`, each once, in the order in
/// which they first occur in `s`.
pub open spec fn flow_months(s: Seq<TransactionView>, w: Window) -> Seq<(i32, u32)>
    decreases s.len(),
{
    if s.len() == 0 {
        Seq::empty()
    } else {
        let known = flow_months(s.drop_last(), w);
        let month = (s.last().date.year, s.last().date.month);
        if w.holds(s.last().date) && !known.contains(month) {
            known.push(month)
        } else {
            known
        }
    }
}

/// Each month of [`flow_months`] with the inflow of its transactions
/// within `w`.
pub open spec fn monthly_inflow_of(s: Seq<TransactionView>, w: Window) -> Seq<MonthTotal> {
    flow_months(s, w).map_values(
        |m: (i32, u32)|
            MonthTotal {
                year: m.0,
                month: m.1,
                total: sum_of(s, inflow_part(w, m.0, m.1)) as i128,
            },
    )
}

/// Each monthly total under the label of its month.
pub open spec fn labelled(months: Seq<MonthTotal>) -> Seq<(Seq<char>, i128)> {
    months.map_values(|m: MonthTotal| (month_label_of(m.year, m.month), m.total))
}

/// The cashflow series of the transactions `s` over `w`: one entry for
/// each month with a transaction in the window, in the order of the labels.
pub open spec fn cashflow_of(s: Seq<TransactionView>, w: Window) -> Seq<(Seq<char>, i128)> {
    arranged::<LabelledTotal>(labelled(monthly_inflow_of(s, w)))
}

/// The window of the `months` months up to `now`, each counted as 31 days.
pub open spec fn months_back(now: Date, months: usize) -> Window {
    Window::trailing(now, months * DAYS_PER_MONTH)
}

/// A month is listed exactly if some transaction within the window lies in
/// it, and no month is listed twice.
pub proof fn lemma_flow_months(s: Seq<TransactionView>, w: Window)
    ensures
        flow_months(s, w).no_duplicates(),
        flow_months(s, w).len() <= s.len(),
        forall|m: (i32, u32)| #[trigger]
            flow_months(s, w).contains(m) <==> exists|k: int|
                0 <= k < s.len() && w.holds((#[trigger] s[k]).date) && s[k].date.year == m.0
                    && s[k].date.month == m.1,
    decreases s.len(),
{
    if s.len() > 0 {
        let front = s.drop_last();
        let known = flow_months(front, w);
        let listed = flow_months(s, w);
        lemma_flow_months(front, w);
        assert forall|m: (i32, u32)| #[trigger]
            listed.contains(m) <==> exists|k: int|
                0 <= k < s.len() && w.holds((#[trigger] s[k]).date) && s[k].date.year == m.0
                    && s[k].date.month == m.1 by {
            if listed.contains(m) {
                let at = choose|at: int| 0 <= at < listed.len() && listed[at] == m;
                if at < known.len() {
                    assert(known[at] == m);
                    assert(known.contains(m));
                    let k = choose|k: int|
                        0 <= k < front.len() && w.holds((#[trigger] front[k]).date)
                            && front[k].date.year == m.0 && front[k].date.month == m.1;
                    assert(s[k] == front[k]);
                } else {
                    assert(s[s.len() - 1] == s.last());
                }
            }
            if exists|k: int|
                0 <= k < s.len() && w.holds((#[trigger] s[k]).date) && s[k].date.year == m.0
                    && s[k].date.month == m.1 {
                let k = choose|k: int|
                    0 <= k < s.len() && w.holds((#[trigger] s[k]).date) && s[k].date.year == m.0
                        && s[k].date.month == m.1;
                if k < front.len() {
                    assert(front[k] == s[k]);
                    assert(known.contains(m));
                    let at = choose|at: int| 0 <= at < known.len() && known[at] == m;
                    assert(listed[at] == m);
                } else if known.contains(m) {
                    let at = choose|at: int| 0 <= at < known.len() && known[at] == m;
                    assert(listed[at] == m);
                } else {
                    assert(listed[known.len() as int] == m);
                }
            }
        }
    }
}

/// A month in which no transaction within the window lies has no inflow.
pub proof fn lemma_unlisted_month_is_flat(s: Seq<TransactionView>, w: Window, m: (i32, u32))
    requires
        !flow_months(s, w).contains(m),
    ensures
        sum_of(s, inflow_part(w, m.0, m.1)) == 0,
    decreases s.len(),
{
    if s.len() > 0 {
        let known = flow_months(s.drop_last(), w);
        let listed = flow_months(s, w);
        if known.contains(m) {
            let at = choose|at: int| 0 <= at < known.len() && known[at] == m;
            assert(listed[at] == m);
        }
        if w.holds(s.last().date) && s.last().date.year == m.0 && s.last().date.month == m.1 {
            assert(listed.last() == m);
        }
        lemma_unlisted_month_is_flat(s.drop_last(), w, m);
    }
}

/// The inflow of a month lies within the range of its type.
pub proof fn lemma_inflow_bounds(s: Seq<TransactionView>, w: Window, year: i32, month: u32)
    requires
        s.len() <= usize::MAX,
    ensures
        i128::MIN < sum_of(s, inflow_part(w, year, month)) < i128::MAX,
{
    lemma_sum_bounds(
        s,
        inflow_part(w, year, month),
        -0x8000_0000_0000_0000,
        0x8000_0000_0000_0000,
    );
    assert(s.len() * 0x8000_0000_0000_0000 <= 0xffff_ffff_ffff_ffff * 0x8000_0000_0000_0000)
        by (nonlinear_arith)
        requires
            s.len() <= 0xffff_ffff_ffff_ffff,
    ;
    assert(s.len() * (-0x8000_0000_0000_0000) == -(s.len() * 0x8000_0000_0000_0000))
        by (nonlinear_arith);
}

/// Writes the label of a month.
pub fn month_label(year: i32, month: u32) -> (label: String)
    ensures
        label@ == month_label_of(year, month),
{
    let mut label = String::new();
    if year < 0 {
        label.push('-');
        push_decimal(&mut label, (-(year as i64)) as u128);
    } else {
        push_decimal(&mut label, year as u128);
    }
    label.push('-');
    if month < 10 {
        label.push('0');
    }
    push_decimal(&mut label, month as u128);
    assert(label@ =~= month_label_of(year, month));
    label
}

/// Four digits of a year, a hyphen, and two digits of a month.
pub open spec fn plain_label(year: int, month: int) -> Seq<char> {
    seq![
        digit_char(year / 1000),
        digit_char(year / 100 % 10),
        digit_char(year / 10 % 10),
        digit_char(year % 10),
        '-',
        digit_char(month / 10),
        digit_char(month % 10),
    ]
}

/// The label of a month with a year of four digits is its
/// [`plain_label`].
pub proof fn lemma_month_label_shape(year: i32, month: u32)
    requires
        1000 <= year <= 9999,
        1 <= month <= 12,
    ensures
        month_label_of(year, month) == plain_label(year as int, month as int),
{
    reveal_with_fuel(decimal_of, 4);
    let y = year as int;
    assert(decimal_of(year as nat) =~= seq![
        digit_char(y / 1000),
        digit_char(y / 100 % 10),
        digit_char(y / 10 % 10),
        digit_char(y % 10),
    ]);
    assert(month_label_of(year, month) =~= plain_label(year as int, month as int));
}

/// A number below 10000 is made up of its four decimal digits.
proof fn lemma_four_digits(y: int)
    requires
        0 <= y <= 9999,
    ensures
        y == 1000 * (y / 1000) + 100 * (y / 100 % 10) + 10 * (y / 10 % 10) + y % 10,
        0 <= y / 1000 <= 9,
        0 <= y / 100 % 10 <= 9,
        0 <= y / 10 % 10 <= 9,
        0 <= y % 10 <= 9,
{
    let hundreds = y / 100;
    let tens = y / 10;
    assert(y == 10 * tens + y % 10);
    assert(tens == 10 * hundreds + tens % 10);
    assert(hundreds == 10 * (y / 1000) + hundreds % 10);
}

/// Two labels made of digits stand in the order of the numbers that the
/// digits write.
proof fn lemma_digit_labels_order(
    a: Seq<char>,
    b: Seq<char>,
    a1: int,
    a2: int,
    a3: int,
    a4: int,
    a5: int,
    a6: int,
    b1: int,
    b2: int,
    b3: int,
    b4: int,
    b5: int,
    b6: int,
)
    requires
        0 <= a1 <= 9 && 0 <= a2 <= 9 && 0 <= a3 <= 9 && 0 <= a4 <= 9 && 0 <= a5 <= 9 && 0 <= a6
            <= 9,
        0 <= b1 <= 9 && 0 <= b2 <= 9 && 0 <= b3 <= 9 && 0 <= b4 <= 9 && 0 <= b5 <= 9 && 0 <= b6
            <= 9,
        a == seq![
            digit_char(a1),
            digit_char(a2),
            digit_char(a3),
            digit_char(a4),
            '-',
            digit_char(a5),
            digit_char(a6),
        ],
        b == seq![
            digit_char(b1),
            digit_char(b2),
            digit_char(b3),
            digit_char(b4),
            '-',
            digit_char(b5),
            digit_char(b6),
        ],
    ensures
        text_precedes(a, b) <==> ({
            let year = 1000 * a1 + 100 * a2 + 10 * a3 + a4;
            let later_year = 1000 * b1 + 100 * b2 + 10 * b3 + b4;
            year < later_year || (year == later_year && 10 * a5 + a6 < 10 * b5 + b6)
        }),
{
    if a1 != b1 {
        lemma_text_precedes_at(a, b, 0);
    } else if a2 != b2 {
        lemma_text_precedes_at(a, b, 1);
    } else if a3 != b3 {
        lemma_text_precedes_at(a, b, 2);
    } else if a4 != b4 {
        lemma_text_precedes_at(a, b, 3);
    } else if a5 != b5 {
        lemma_text_precedes_at(a, b, 5);
    } else if a6 != b6 {
        lemma_text_precedes_at(a, b, 6);
    } else {
        lemma_text_precedes_same(a, b);
    }
}

/// For years of four digits, the order of the labels is the order of the
/// months in time.
pub proof fn lemma_labels_follow_time(year: i32, month: u32, later_year: i32, later_month: u32)
    requires
        1000 <= year <= 9999,
        1000 <= later_year <= 9999,
        1 <= month <= 12,
        1 <= later_month <= 12,
    ensures
        text_precedes(month_label_of(year, month), month_label_of(later_year, later_month)) <==> (
        year < later_year || (year == later_year && month < later_month)),
{
    lemma_month_label_shape(year, month);
    lemma_month_label_shape(later_year, later_month);
    let y = year as int;
    let z = later_year as int;
    let m = month as int;
    let n = later_month as int;
    lemma_four_digits(y);
    lemma_four_digits(z);
    lemma_digit_labels_order(
        month_label_of(year, month),
        month_label_of(later_year, later_month),
        y / 1000,
        y / 100 % 10,
        y / 10 % 10,
        y % 10,
        m / 10,
        m % 10,
        z / 1000,
        z / 100 % 10,
        z / 10 % 10,
        z % 10,
        n / 10,
        n % 10,
    );
}

impl Ledger {
    /// The months with transactions within `w`, each with its inflow, in
    /// the order in which they first occur.
    pub fn monthly_inflow(&self, w: Window) -> (months: Vec<MonthTotal>)
        ensures
            months@ == monthly_inflow_of(self@.transactions, w),
    {
        let ghost txs = self@.transactions;
        let n: usize = self.transactions.len();
        let mut months: Vec<MonthTotal> = Vec::new();
        let mut i: usize = 0;
        assert(txs.take(0).len() == 0);
        assert(months@ =~= monthly_inflow_of(txs.take(0), w));
        while i < n
            invariant
                i <= n,
                n == self.transactions@.len(),
                txs == self@.transactions,
                months@ == monthly_inflow_of(txs.take(i as int), w),
            decreases n - i,
        {
            let ghost seen = txs.take(i as int);
            let ghost more = txs.take(i + 1);
            let ghost known = flow_months(seen, w);
            let tx = &self.transactions[i];
            let year: i32 = tx.date.year;
            let month: u32 = tx.date.month;
            proof {
                assert(more.drop_last() == seen);
                assert(more.last() == txs[i as int]);
                assert(txs[i as int] == self.transactions@[i as int]@);
                lemma_flow_months(seen, w);
                assert forall|m: (i32, u32)|
                    sum_of(more, #[trigger] inflow_part(w, m.0, m.1)) == sum_of(
                        seen,
                        inflow_part(w, m.0, m.1),
                    ) + inflow_part(w, m.0, m.1)(txs[i as int]) by {
                    lemma_sum_step(txs, inflow_part(w, m.0, m.1), i as int);
                }
                assert forall|m: (i32, u32)|
                    i128::MIN < sum_of(seen, #[trigger] inflow_part(w, m.0, m.1)) < i128::MAX
                        && i128::MIN < sum_of(more, inflow_part(w, m.0, m.1)) < i128::MAX by {
                    lemma_inflow_bounds(seen, w, m.0, m.1);
                    lemma_inflow_bounds(more, w, m.0, m.1);
                }
                assert(months@.len() == known.len());
                assert forall|j: int| 0 <= j < months@.len() implies #[trigger] months@[j]
                    == (MonthTotal {
                    year: known[j].0,
                    month: known[j].1,
                    total: sum_of(seen, inflow_part(w, known[j].0, known[j].1)) as i128,
                }) by {}
            }
            if w.contains(&tx.date) {
                let m: usize = months.len();
                let mut j: usize = 0;
                while j < m && !(months[j].year == year && months[j].month == month)
                    invariant
                        j <= m,
                        m == months@.len(),
                        m == known.len(),
                        forall|a: int|
                            0 <= a < m ==> (#[trigger] months@[a]).year == known[a].0
                                && months@[a].month == known[a].1,
                        forall|a: int| 0 <= a < j ==> #[trigger] known[a] != (year, month),
                    decreases m - j,
                {
                    j += 1;
                }
                if j < m {
                    let total: i128 = months[j].total - tx.amount as i128;
                    months.set(j, MonthTotal { year, month, total });
                    proof {
                        assert(known[j as int] == (year, month));
                        assert(known.contains(known[j as int]));
                        assert(flow_months(more, w) == known);
                        assert forall|a: int| 0 <= a < m implies months@[a] == monthly_inflow_of(
                            more,
                            w,
                        )[a] by {
                            if a != j {
                                assert(known[a] != known[j as int]);
                            }
                        }
                        assert(months@ =~= monthly_inflow_of(more, w));
                    }
                } else {
                    proof {
                        assert(!known.contains((year, month)));
                        lemma_unlisted_month_is_flat(seen, w, (year, month));
                    }
                    months.push(MonthTotal { year, month, total: -(tx.amount as i128) });
                    proof {
                        assert(flow_months(more, w) == known.push((year, month)));
                        assert(months@ =~= monthly_inflow_of(more, w));
                    }
                }
            } else {
                proof {
                    assert(flow_months(more, w) == known);
                    assert(months@ =~= monthly_inflow_of(more, w));
                }
            }
            i += 1;
        }
        assert(txs.take(n as int) == txs);
        months
    }

    /// The cashflow series over `w`: for each month with a transaction in
    /// the window its label and its inflow, in the order of the labels.
    /// Months without transactions are left out.
    pub fn cashflow(&self, w: Window) -> (r: Vec<(String, i128)>)
        ensures
            views_of(r@) == cashflow_of(self@.transactions, w),
            r@.len() == flow_months(self@.transactions, w).len(),
            forall|i: int, j: int| 0 <= i < j < r@.len() ==> !text_precedes(r@[j].0@, r@[i].0@),
    {
        let months = self.monthly_inflow(w);
        let n: usize = months.len();
        let mut series: Vec<LabelledTotal> = Vec::new();
        let mut i: usize = 0;
        while i < n
            invariant
                i <= n,
                n == months@.len(),
                series@.len() == i,
                forall|j: int| 0 <= j < i ==> (#[trigger] series@[j])@ == labelled(months@)[j],
            decreases n - i,
        {
            series.push(
                LabelledTotal {
                    label: month_label(months[i].year, months[i].month),
                    total: months[i].total,
                },
            );
            i += 1;
        }
        assert(views_of(series@) =~= labelled(months@));
        sort_ranked(&mut series);
        proof {
            lemma_arranged_in_order::<LabelledTotal>(labelled(months@));
        }
        let mut r: Vec<(String, i128)> = Vec::new();
        let mut i: usize = 0;
        while i < n
            invariant
                i <= n,
                n == series@.len(),
                r@.len() == i,
                forall|j: int| 0 <= j < i ==> (#[trigger] r@[j])@ == series@[j]@,
            decreases n - i,
        {
            r.push((series[i].label.clone(), series[i].total));
            i += 1;
        }
        proof {
            assert(views_of(r@) =~= views_of(series@));
            let sorted = views_of(r@);
            assert forall|i: int, j: int| 0 <= i < j < r@.len() implies !text_precedes(
                r@[j].0@,
                r@[i].0@,
            ) by {
                assert(sorted[i] == r@[i]@);
                assert(sorted[j] == r@[j]@);
                assert(!LabelledTotal::outranks(sorted[j], sorted[i]));
            }
        }
        r
    }

    /// The cashflow series of the `months` months up to `now`, each counted
    /// as 31 days; empty for no months.
    pub fn spending_last_n_months_from(&self, now: Date, months: usize) -> (r: Vec<
        (String, i128),
    >)
        ensures
            months == 0 ==> r@.len() == 0,
            months > 0 ==> views_of(r@) == cashflow_of(
                self@.transactions,
                months_back(now, months),
            ),
    {
        if months == 0 {
            return Vec::new();
        }
        let w = match (months as u64).checked_mul(DAYS_PER_MONTH) {
            Some(days) => Window::last_days(now, days),
            None => Window::All,
        };
        self.cashflow(w)
    }

    /// The cashflow series of the `months` months up to the day that the
    /// local clock shows; empty for no months.
    pub fn spending_last_n_months(&self, months: usize) -> (r: Vec<(String, i128)>)
        ensures
            months == 0 ==> r@.len() == 0,
            months > 0 ==> exists|now: Date|
                #[trigger] now.is_calendar_date() && views_of(r@) == cashflow_of(
                    self@.transactions,
                    months_back(now, months),
                ),
    {
        if months == 0 {
            return Vec::new();
        }
        let now = Date::today();
        self.spending_last_n_months_from(now, months)
    }
}

} // verus!
