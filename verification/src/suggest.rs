//! Budget suggestions from recent spending.

use crate::date::Date;
use crate::ledger::{Ledger, TransactionView};
use crate::order::{
    arranged, lemma_arranged_fixes_ordered, lemma_arranged_in_order, sort_ranked, views_of, Ranked,
};
use crate::spending::{spending_by_category, spending_categories};
use crate::window::Window;
use vstd::prelude::*;

verus! {

/// Number of days over which spending is averaged.
pub const SUGGESTION_DAYS: u64 = 90;

/// Threefold of the least monthly base of a suggestion, in hundredths.
pub const LEAST_WINDOW_SPEND: i128 = 15000;

/// A monthly limit proposed for one category, in hundredths, with the
/// reason for it.
#[derive(Debug, Clone, PartialEq, Eq)]
pub struct BudgetSuggestion {
    pub category: String,
    pub suggested_limit: i128,
    pub reason: String,
}

/// A [`BudgetSuggestion`] with its texts as sequences of characters.
pub struct BudgetSuggestionView {
    pub category: Seq<char>,
    pub suggested_limit: i128,
    pub reason: Seq<char>,
}

impl View for BudgetSuggestion {
    type V = BudgetSuggestionView;

    open spec fn view(&self) -> BudgetSuggestionView {
        BudgetSuggestionView {
            category: self.category@,
            suggested_limit: self.suggested_limit,
            reason: self.reason@,
        }
    }
}

/// Suggestions stand largest limit first.
impl Ranked for BudgetSuggestion {
    open spec fn outranks(a: BudgetSuggestionView, b: BudgetSuggestionView) -> bool {
        a.suggested_limit > b.suggested_limit
    }

    fn stands_before(&self, other: &Self) -> (b: bool) {
        self.suggested_limit > other.suggested_limit
    }

    proof fn lemma_ranking(a: BudgetSuggestionView, b: BudgetSuggestionView, c: BudgetSuggestionView) {
    }
}

/// The limit suggested for a category that spent `window_spend` over three
/// months: a third of it, but at least 50.00, with a tenth added, rounded to
/// the hundredth, halves up.
pub open spec fn suggested_limit_for(window_spend: int) -> int {
    let tripled_base = if window_spend > LEAST_WINDOW_SPEND {
        window_spend
    } else {
        LEAST_WINDOW_SPEND as int
    };
    (11 * tripled_base + 15) / 30
}

/// The reason given with a computed suggestion.
pub open spec fn average_reason() -> Seq<char> {
    "Last 90 days average + 10% buffer"@
}

/// One suggestion for each category total.
pub open spec fn suggestions_of(spend: Seq<(Seq<char>, i128)>) -> Seq<BudgetSuggestionView> {
    spend.map_values(
        |e: (Seq<char>, i128)|
            BudgetSuggestionView {
                category: e.0,
                suggested_limit: suggested_limit_for(e.1 as int) as i128,
                reason: average_reason(),
            },
    )
}

/// What is suggested while nothing has been spent.
pub open spec fn fallback_suggestions() -> Seq<BudgetSuggestionView> {
    seq![
        BudgetSuggestionView {
            category: "Housing"@,
            suggested_limit: 0,
            reason: "Add your rent/mortgage so you can track it monthly"@,
        },
        BudgetSuggestionView {
            category: "Food"@,
            suggested_limit: 0,
            reason: "Groceries, coffee, restaurants"@,
        },
        BudgetSuggestionView {
            category: "Savings"@,
            suggested_limit: 0,
            reason: "Pay yourself first"@,
        },
    ]
}

/// The suggestions drawn from the transactions `s` over the window `w`:
/// one for each category with expenses, or the fallback where there is
/// none, largest limit first.
pub open spec fn suggested_of(s: Seq<TransactionView>, w: Window) -> Seq<BudgetSuggestionView> {
    let spend = spending_by_category(s, w);
    arranged::<BudgetSuggestion>(
        if spend.len() == 0 {
            fallback_suggestions()
        } else {
            suggestions_of(spend)
        },
    )
}

/// A suggested limit is at least 55.00 and fits its type.
pub proof fn lemma_suggested_limit_bounds(window_spend: int)
    requires
        window_spend <= i128::MAX,
    ensures
        5500 <= suggested_limit_for(window_spend) <= i128::MAX,
{
}

/// Without expenses in the window, the suggestions are the fallback, in
/// its own order.
pub proof fn lemma_suggested_without_spend(s: Seq<TransactionView>, w: Window)
    requires
        spending_categories(s, w).len() == 0,
    ensures
        suggested_of(s, w) == fallback_suggestions(),
{
    assert(spending_by_category(s, w).len() == 0);
    lemma_arranged_fixes_ordered::<BudgetSuggestion>(fallback_suggestions());
}

/// An empty ledger has no expenses.
pub proof fn lemma_suggested_for_empty(w: Window)
    ensures
        suggested_of(Seq::empty(), w) == fallback_suggestions(),
{
    lemma_suggested_without_spend(Seq::empty(), w);
}

/// Computes [`suggested_limit_for`].
pub fn suggested_limit(window_spend: i128) -> (limit: i128)
    ensures
        limit == suggested_limit_for(window_spend as int),
{
    let tripled_base: i128 = if window_spend > LEAST_WINDOW_SPEND {
        window_spend
    } else {
        LEAST_WINDOW_SPEND
    };
    let thirtieths: i128 = tripled_base / 30;
    let rest: i128 = tripled_base % 30;
    11 * thirtieths + (11 * rest + 15) / 30
}

fn fallback() -> (r: Vec<BudgetSuggestion>)
    ensures
        views_of(r@) == fallback_suggestions(),
{
    let mut r: Vec<BudgetSuggestion> = Vec::new();
    r.push(
        BudgetSuggestion {
            category: "Housing".to_owned(),
            suggested_limit: 0,
            reason: "Add your rent/mortgage so you can track it monthly".to_owned(),
        },
    );
    r.push(
        BudgetSuggestion {
            category: "Food".to_owned(),
            suggested_limit: 0,
            reason: "Groceries, coffee, restaurants".to_owned(),
        },
    );
    r.push(
        BudgetSuggestion {
            category: "Savings".to_owned(),
            suggested_limit: 0,
            reason: "Pay yourself first".to_owned(),
        },
    );
    assert(views_of(r@) =~= fallback_suggestions());
    r
}

impl Ledger {
    /// Suggested monthly limits from the expenses within `w`, largest
    /// first; the fallback where the window holds no expense.
    pub fn suggested_budgets_within(&self, w: Window) -> (r: Vec<BudgetSuggestion>)
        ensures
            views_of(r@) == suggested_of(self@.transactions, w),
            spending_categories(self@.transactions, w).len() == 0 ==> views_of(r@)
                == fallback_suggestions(),
            forall|i: int, j: int|
                0 <= i < j < r@.len() ==> r@[i].suggested_limit >= r@[j].suggested_limit,
    {
        let spend = self.expenses_by_category(w);
        let ghost totals = spending_by_category(self@.transactions, w);
        let n: usize = spend.len();
        assert(views_of(spend@).len() == spend@.len());
        assert(totals.len() == spending_categories(self@.transactions, w).len());
        let mut r: Vec<BudgetSuggestion> = Vec::new();
        if n == 0 {
            r = fallback();
        } else {
            let mut i: usize = 0;
            while i < n
                invariant
                    i <= n,
                    n == spend@.len(),
                    r@.len() == i,
                    forall|j: int|
                        0 <= j < i ==> (#[trigger] r@[j])@ == suggestions_of(views_of(spend@))[j],
                decreases n - i,
            {
                proof {
                    assert(views_of(spend@)[i as int] == spend@[i as int]@);
                    lemma_suggested_limit_bounds(spend@[i as int].total as int);
                }
                r.push(
                    BudgetSuggestion {
                        category: spend[i].category.clone(),
                        suggested_limit: suggested_limit(spend[i].total),
                        reason: "Last 90 days average + 10% buffer".to_owned(),
                    },
                );
                i += 1;
            }
            assert(views_of(r@) =~= suggestions_of(totals));
        }
        let ghost unsorted = views_of(r@);
        sort_ranked(&mut r);
        proof {
            let shown = views_of(r@);
            lemma_arranged_in_order::<BudgetSuggestion>(unsorted);
            if n == 0 {
                lemma_suggested_without_spend(self@.transactions, w);
            }
            assert forall|i: int, j: int| 0 <= i < j < r@.len() implies r@[i].suggested_limit
                >= r@[j].suggested_limit by {
                assert(shown[i] == r@[i]@);
                assert(shown[j] == r@[j]@);
                assert(!BudgetSuggestion::outranks(shown[j], shown[i]));
            }
        }
        r
    }

    /// Suggested monthly limits from the expenses of the 90 days up to
    /// `now`.
    pub fn suggested_budgets_on(&self, now: Date) -> (r: Vec<BudgetSuggestion>)
        ensures
            views_of(r@) == suggested_of(
                self@.transactions,
                Window::trailing(now, SUGGESTION_DAYS as int),
            ),
    {
        self.suggested_budgets_within(Window::last_days(now, SUGGESTION_DAYS))
    }

    /// Suggested monthly limits from the expenses of the 90 days up to the
    /// day that the local clock shows.
    pub fn suggested_budgets(&self) -> (r: Vec<BudgetSuggestion>)
        ensures
            exists|now: Date|
                #[trigger] now.is_calendar_date() && views_of(r@) == suggested_of(
                    self@.transactions,
                    Window::trailing(now, SUGGESTION_DAYS as int),
                ),
            self@.transactions.len() == 0 ==> views_of(r@) == fallback_suggestions(),
    {
        let now = Date::today();
        proof {
            if self@.transactions.len() == 0 {
                assert(self@.transactions == Seq::<TransactionView>::empty());
                lemma_suggested_for_empty(Window::trailing(now, SUGGESTION_DAYS as int));
            }
        }
        self.suggested_budgets_on(now)
    }
}

} // verus!
