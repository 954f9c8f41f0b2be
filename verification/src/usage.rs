//! How much of each budget is spent.

use crate::ledger::{BudgetView, Ledger, TransactionView};
use crate::order::views_of;
use crate::spending::{expense_part, lemma_spending_totals};
use crate::window::{lemma_sum_step, sum_of, Window};
use vstd::prelude::*;

verus! {

/// The largest share that is shown, in hundredths of the limit.
pub const PERCENT_CAP: u32 = 999;

/// A budget with what its category has spent, in hundredths, and the share
/// of the limit that this is, in whole percent.
#[derive(Debug, Clone, PartialEq, Eq)]
pub struct BudgetUsage {
    pub category: String,
    pub spent: i128,
    pub limit: i64,
    pub percent: u32,
}

/// A [`BudgetUsage`] with its category as a sequence of characters.
pub struct BudgetUsageView {
    pub category: Seq<char>,
    pub spent: i128,
    pub limit: i64,
    pub percent: u32,
}

impl View for BudgetUsage {
    type V = BudgetUsageView;

    open spec fn view(&self) -> BudgetUsageView {
        BudgetUsageView {
            category: self.category@,
            spent: self.spent,
            limit: self.limit,
            percent: self.percent,
        }
    }
}

/// The quotient of `a` by `b` rounded to the nearest whole number, a half
/// to the even one; for `a` not negative and `b` positive.
pub open spec fn rounded_quotient(a: int, b: int) -> int {
    let q = a / b;
    let r = a % b;
    if 2 * r < b || (2 * r == b && q % 2 == 0) {
        q
    } else {
        q + 1
    }
}

/// The share of `limit` that `spent` is, in whole percent and at most
/// [`PERCENT_CAP`]; zero where there is no limit or nothing is spent.
pub open spec fn percent_of(spent: int, limit: int) -> int {
    if limit <= 0 || spent <= 0 {
        0
    } else if rounded_quotient(100 * spent, limit) > PERCENT_CAP {
        PERCENT_CAP as int
    } else {
        rounded_quotient(100 * spent, limit)
    }
}

/// The usage of one budget over the transactions `s` within `w`.
pub open spec fn usage_of(budget: BudgetView, s: Seq<TransactionView>, w: Window) -> BudgetUsageView {
    let spent = sum_of(s, expense_part(w, budget.category));
    BudgetUsageView {
        category: budget.category,
        spent: spent as i128,
        limit: budget.monthly_limit,
        percent: percent_of(spent, budget.monthly_limit as int) as u32,
    }
}

/// The usage of each of `budgets`, in their order.
pub open spec fn usages_of(budgets: Seq<BudgetView>, s: Seq<TransactionView>, w: Window) -> Seq<
    BudgetUsageView,
> {
    budgets.map_values(|b: BudgetView| usage_of(b, s, w))
}

/// Computes [`percent_of`].
pub fn percent_of_limit(spent: i128, limit: i64) -> (percent: u32)
    ensures
        percent == percent_of(spent as int, limit as int),
        percent <= PERCENT_CAP,
{
    if limit <= 0 || spent <= 0 {
        return 0;
    }
    let cap: i128 = limit as i128;
    if spent >= 10 * cap {
        proof {
            let a = 100 * spent as int;
            let b = limit as int;
            assert(a >= 1000 * b);
            assert(a / b >= 1000) by (nonlinear_arith)
                requires
                    a >= 1000 * b,
                    b > 0,
            ;
        }
        return PERCENT_CAP;
    }
    let scaled: i128 = 100 * spent;
    let q: i128 = scaled / cap;
    let r: i128 = scaled % cap;
    proof {
        let a = scaled as int;
        let b = limit as int;
        assert(a / b < 1000) by (nonlinear_arith)
            requires
                0 <= a < 1000 * b,
                b > 0,
        ;
        assert(a / b >= 0) by (nonlinear_arith)
            requires
                0 <= a,
                b > 0,
        ;
    }
    let rounded: i128 = if 2 * r < cap || (2 * r == cap && q % 2 == 0) {
        q
    } else {
        q + 1
    };
    if rounded > PERCENT_CAP as i128 {
        PERCENT_CAP
    } else {
        rounded as u32
    }
}

impl Ledger {
    /// For each budget, in order, what its category has spent within `w`
    /// and the share of the limit that this is.
    pub fn budget_usage(&self, w: Window) -> (usage: Vec<BudgetUsage>)
        ensures
            views_of(usage@) == usages_of(self@.budgets, self@.transactions, w),
    {
        let ghost txs = self@.transactions;
        let ghost budgets = self@.budgets;
        let n: usize = self.budgets.len();
        let m: usize = self.transactions.len();
        let mut usage: Vec<BudgetUsage> = Vec::new();
        let mut i: usize = 0;
        while i < n
            invariant
                i <= n,
                n == self.budgets@.len(),
                m == self.transactions@.len(),
                txs == self@.transactions,
                budgets == self@.budgets,
                usage@.len() == i,
                forall|j: int| 0 <= j < i ==> (#[trigger] usage@[j])@ == usage_of(budgets[j], txs, w),
            decreases n - i,
        {
            let budget = &self.budgets[i];
            let ghost category = budget.category@;
            assert(budgets[i as int] == self.budgets@[i as int]@);
            let mut spent: i128 = 0;
            let mut k: usize = 0;
            assert(txs.take(0).len() == 0);
            while k < m
                invariant
                    k <= m,
                    m == self.transactions@.len(),
                    txs == self@.transactions,
                    category == budget.category@,
                    spent == sum_of(txs.take(k as int), expense_part(w, category)),
                decreases m - k,
            {
                proof {
                    lemma_sum_step(txs, expense_part(w, category), k as int);
                    lemma_spending_totals(txs.take(k as int), w);
                    lemma_spending_totals(txs.take(k + 1), w);
                    assert(txs[k as int] == self.transactions@[k as int]@);
                }
                let tx = &self.transactions[k];
                if w.contains(&tx.date) && tx.amount > 0 && tx.category == budget.category {
                    spent = spent + tx.amount as i128;
                }
                k += 1;
            }
            assert(txs.take(m as int) == txs);
            usage.push(
                BudgetUsage {
                    category: budget.category.clone(),
                    spent,
                    limit: budget.monthly_limit,
                    percent: percent_of_limit(spent, budget.monthly_limit),
                },
            );
            i += 1;
        }
        assert(views_of(usage@) =~= usages_of(budgets, txs, w));
        usage
    }
}

} // verus!
