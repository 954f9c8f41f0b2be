//! Spending by category.

use crate::date::Date;
use crate::ledger::{Ledger, TransactionView};
use crate::order::{arranged, lemma_arranged_in_order, sort_ranked, views_of, Ranked};
use crate::window::{lemma_sum_bounds, lemma_sum_insert, lemma_sum_step, sum_of, Window};
use vstd::prelude::*;

verus! {

/// What one category has spent, in hundredths.
#[derive(Debug, Clone, PartialEq, Eq)]
pub struct CategoryTotal {
    pub category: String,
    pub total: i128,
}

impl View for CategoryTotal {
    type V = (Seq<char>, i128);

    open spec fn view(&self) -> (Seq<char>, i128) {
        (self.category@, self.total)
    }
}

/// Category totals stand largest first.
impl Ranked for CategoryTotal {
    open spec fn outranks(a: (Seq<char>, i128), b: (Seq<char>, i128)) -> bool {
        a.1 > b.1
    }

    fn stands_before(&self, other: &Self) -> (b: bool) {
        self.total > other.total
    }

    proof fn lemma_ranking(a: (Seq<char>, i128), b: (Seq<char>, i128), c: (Seq<char>, i128)) {
    }
}

/// `t` is an expense within `w`: its day lies in the window and its amount
/// is positive.
pub open spec fn is_expense(t: TransactionView, w: Window) -> bool {
    w.holds(t.date) && t.amount > 0
}

/// What a transaction adds to the spending of `category` within `w`.
pub open spec fn expense_part(w: Window, category: Seq<char>) -> spec_fn(TransactionView) -> int {
    |t: TransactionView|
        if is_expense(t, w) && t.category == category {
            t.amount as int
        } else {
            0
        }
}

/// The categories of the expenses within `w`, each once, in the order in
/// which they first occur in `s`.
pub open spec fn spending_categories(s: Seq<TransactionView>, w: Window) -> Seq<Seq<char>>
    decreases s.len(),
{
    if s.len() == 0 {
        Seq::empty()
    } else {
        let known = spending_categories(s.drop_last(), w);
        if is_expense(s.last(), w) && !known.contains(s.last().category) {
            known.push(s.last().category)
        } else {
            known
        }
    }
}

/// Each category of [`spending_categories`] with the sum of its expenses
/// within `w`.
pub open spec fn spending_by_category(s: Seq<TransactionView>, w: Window) -> Seq<
    (Seq<char>, i128),
> {
    spending_categories(s, w).map_values(
        |c: Seq<char>| (c, sum_of(s, expense_part(w, c)) as i128),
    )
}

/// A category is listed exactly if some expense within the window carries
/// it, and no category is listed twice.
pub proof fn lemma_spending_categories(s: Seq<TransactionView>, w: Window)
    ensures
        spending_categories(s, w).no_duplicates(),
        spending_categories(s, w).len() <= s.len(),
        forall|c: Seq<char>| #[trigger]
            spending_categories(s, w).contains(c) <==> exists|k: int|
                0 <= k < s.len() && is_expense(#[trigger] s[k], w) && s[k].category == c,
    decreases s.len(),
{
    if s.len() > 0 {
        let front = s.drop_last();
        let known = spending_categories(front, w);
        let listed = spending_categories(s, w);
        lemma_spending_categories(front, w);
        assert forall|c: Seq<char>| #[trigger]
            listed.contains(c) <==> exists|k: int|
                0 <= k < s.len() && is_expense(#[trigger] s[k], w) && s[k].category == c by {
            if listed.contains(c) {
                let at = choose|at: int| 0 <= at < listed.len() && listed[at] == c;
                if at < known.len() {
                    assert(known[at] == c);
                    assert(known.contains(c));
                    let k = choose|k: int|
                        0 <= k < front.len() && is_expense(#[trigger] front[k], w)
                            && front[k].category == c;
                    assert(s[k] == front[k]);
                } else {
                    assert(s[s.len() - 1] == s.last());
                }
            }
            if exists|k: int|
                0 <= k < s.len() && is_expense(#[trigger] s[k], w) && s[k].category == c {
                let k = choose|k: int|
                    0 <= k < s.len() && is_expense(#[trigger] s[k], w) && s[k].category == c;
                if k < front.len() {
                    assert(front[k] == s[k]);
                    assert(known.contains(c));
                    let at = choose|at: int| 0 <= at < known.len() && known[at] == c;
                    assert(listed[at] == c);
                } else if known.contains(c) {
                    let at = choose|at: int| 0 <= at < known.len() && known[at] == c;
                    assert(listed[at] == c);
                } else {
                    assert(listed[known.len() as int] == c);
                }
            }
        }
    }
}

/// A category that no expense within the window carries has spent nothing.
pub proof fn lemma_unlisted_spends_nothing(s: Seq<TransactionView>, w: Window, c: Seq<char>)
    requires
        !spending_categories(s, w).contains(c),
    ensures
        sum_of(s, expense_part(w, c)) == 0,
    decreases s.len(),
{
    if s.len() > 0 {
        let known = spending_categories(s.drop_last(), w);
        let listed = spending_categories(s, w);
        if known.contains(c) {
            let at = choose|at: int| 0 <= at < known.len() && known[at] == c;
            assert(listed[at] == c);
        }
        if is_expense(s.last(), w) && s.last().category == c {
            assert(listed.last() == c);
        }
        lemma_unlisted_spends_nothing(s.drop_last(), w, c);
    }
}

/// The total of every listed category is the sum of its expenses, which is
/// positive and within range.
pub proof fn lemma_spending_totals(s: Seq<TransactionView>, w: Window)
    requires
        s.len() <= usize::MAX,
    ensures
        forall|i: int|
            0 <= i < spending_by_category(s, w).len() ==> (#[trigger] spending_by_category(
                s,
                w,
            )[i]).1 == sum_of(s, expense_part(w, spending_categories(s, w)[i])),
        forall|c: Seq<char>|
            0 <= #[trigger] sum_of(s, expense_part(w, c)) <= s.len() * 0x7fff_ffff_ffff_ffff,
{
    assert forall|c: Seq<char>|
        0 <= #[trigger] sum_of(s, expense_part(w, c)) <= s.len() * 0x7fff_ffff_ffff_ffff by {
        lemma_sum_bounds(s, expense_part(w, c), 0, 0x7fff_ffff_ffff_ffff);
    }
    assert(s.len() * 0x7fff_ffff_ffff_ffff <= 0xffff_ffff_ffff_ffff * 0x7fff_ffff_ffff_ffff)
        by (nonlinear_arith)
        requires
            s.len() <= 0xffff_ffff_ffff_ffff,
    ;
}

/// Income is no spending: a transaction whose amount is not positive
/// changes neither the categories nor their totals, wherever it stands.
pub proof fn lemma_income_is_no_spending(
    s: Seq<TransactionView>,
    w: Window,
    k: int,
    t: TransactionView,
)
    requires
        0 <= k <= s.len(),
        t.amount <= 0,
    ensures
        spending_categories(s.insert(k, t), w) == spending_categories(s, w),
        spending_by_category(s.insert(k, t), w) == spending_by_category(s, w),
    decreases s.len() - k,
{
    let grown = s.insert(k, t);
    if k == s.len() {
        assert(grown.drop_last() == s);
    } else {
        assert(grown.drop_last() == s.drop_last().insert(k, t));
        assert(grown.last() == s.last());
        lemma_income_is_no_spending(s.drop_last(), w, k, t);
    }
    assert(spending_categories(grown, w) == spending_categories(s, w));
    assert forall|c: Seq<char>|
        sum_of(grown, expense_part(w, c)) == sum_of(s, #[trigger] expense_part(w, c)) by {
        lemma_sum_insert(s, expense_part(w, c), k, t);
    }
    assert(spending_by_category(grown, w) =~= spending_by_category(s, w));
}

impl Ledger {
    /// The categories with expenses within `w`, each with its total, in the
    /// order in which they first occur.
    pub(crate) fn expenses_by_category(&self, w: Window) -> (groups: Vec<CategoryTotal>)
        ensures
            views_of(groups@) == spending_by_category(self@.transactions, w),
    {
        let ghost txs = self@.transactions;
        let n: usize = self.transactions.len();
        let mut groups: Vec<CategoryTotal> = Vec::new();
        let mut i: usize = 0;
        assert(txs.take(0).len() == 0);
        assert(views_of(groups@) =~= spending_by_category(txs.take(0), w));
        while i < n
            invariant
                i <= n,
                n == self.transactions@.len(),
                txs == self@.transactions,
                views_of(groups@) == spending_by_category(txs.take(i as int), w),
            decreases n - i,
        {
            let ghost seen = txs.take(i as int);
            let ghost more = txs.take(i + 1);
            let ghost known = spending_categories(seen, w);
            let tx = &self.transactions[i];
            proof {
                assert(more.drop_last() == seen);
                assert(more.last() == txs[i as int]);
                assert(txs[i as int] == self.transactions@[i as int]@);
                lemma_spending_categories(seen, w);
                lemma_spending_totals(seen, w);
                lemma_spending_totals(more, w);
                assert forall|c: Seq<char>|
                    sum_of(more, #[trigger] expense_part(w, c)) == sum_of(
                        seen,
                        expense_part(w, c),
                    ) + expense_part(w, c)(txs[i as int]) by {
                    lemma_sum_step(txs, expense_part(w, c), i as int);
                }
                assert(views_of(groups@).len() == groups@.len());
                assert(spending_by_category(seen, w).len() == known.len());
                assert(groups@.len() == known.len());
                assert forall|j: int| 0 <= j < groups@.len() implies (#[trigger] groups@[j])@
                    == (known[j], sum_of(seen, expense_part(w, known[j])) as i128) by {
                    assert(views_of(groups@)[j] == groups@[j]@);
                    assert(spending_by_category(seen, w)[j] == (
                        known[j],
                        sum_of(seen, expense_part(w, known[j])) as i128,
                    ));
                }
            }
            if w.contains(&tx.date) && tx.amount > 0 {
                let m: usize = groups.len();
                let mut j: usize = 0;
                while j < m && !(groups[j].category == tx.category)
                    invariant
                        j <= m,
                        m == groups@.len(),
                        m == known.len(),
                        forall|a: int| 0 <= a < m ==> (#[trigger] groups@[a])@.0 == known[a],
                        forall|a: int| 0 <= a < j ==> #[trigger] known[a] != tx.category@,
                    decreases m - j,
                {
                    j += 1;
                }
                if j < m {
                    let total: i128 = groups[j].total + tx.amount as i128;
                    groups.set(j, CategoryTotal { category: tx.category.clone(), total });
                    proof {
                        assert(known.contains(known[j as int]));
                        assert(spending_categories(more, w) == known);
                        assert forall|a: int| 0 <= a < m implies views_of(groups@)[a]
                            == spending_by_category(more, w)[a] by {
                            if a != j {
                                assert(known[a] != known[j as int]);
                            }
                        }
                        assert(views_of(groups@) =~= spending_by_category(more, w));
                    }
                } else {
                    proof {
                        assert(!known.contains(tx.category@));
                        lemma_unlisted_spends_nothing(seen, w, tx.category@);
                    }
                    groups.push(
                        CategoryTotal { category: tx.category.clone(), total: tx.amount as i128 },
                    );
                    proof {
                        assert(spending_categories(more, w) == known.push(tx.category@));
                        assert(views_of(groups@) =~= spending_by_category(more, w));
                    }
                }
            } else {
                proof {
                    assert(spending_categories(more, w) == known);
                    assert(views_of(groups@) =~= spending_by_category(more, w));
                }
            }
            i += 1;
        }
        assert(txs.take(n as int) == txs);
        groups
    }

    /// Spending by category within `w`, largest total first. Only
    /// transactions with a positive amount count; categories with equal
    /// totals stand in the order in which they first occur.
    pub fn category_spending(&self, w: Window) -> (r: Vec<(String, i128)>)
        ensures
            views_of(r@) == arranged::<CategoryTotal>(
                spending_by_category(self@.transactions, w),
            ),
            r@.len() == spending_categories(self@.transactions, w).len(),
            forall|i: int, j: int| 0 <= i < j < r@.len() ==> r@[i].1 >= r@[j].1,
    {
        let mut groups = self.expenses_by_category(w);
        sort_ranked(&mut groups);
        proof {
            lemma_arranged_in_order::<CategoryTotal>(spending_by_category(self@.transactions, w));
        }
        let n: usize = groups.len();
        let mut r: Vec<(String, i128)> = Vec::new();
        let mut i: usize = 0;
        while i < n
            invariant
                i <= n,
                n == groups@.len(),
                r@.len() == i,
                forall|j: int| 0 <= j < i ==> (#[trigger] r@[j])@ == groups@[j]@,
            decreases n - i,
        {
            r.push((groups[i].category.clone(), groups[i].total));
            i += 1;
        }
        proof {
            assert(views_of(r@) =~= views_of(groups@));
            let sorted = views_of(r@);
            assert forall|i: int, j: int| 0 <= i < j < r@.len() implies r@[i].1 >= r@[j].1 by {
                assert(sorted[i] == r@[i]@);
                assert(sorted[j] == r@[j]@);
                assert(!CategoryTotal::outranks(sorted[j], sorted[i]));
            }
        }
        r
    }

    /// Spending by category within the calendar month in which `now` lies.
    pub fn category_spending_in_month(&self, now: Date) -> (r: Vec<(String, i128)>)
        ensures
            views_of(r@) == arranged::<CategoryTotal>(
                spending_by_category(self@.transactions, Window::Month(now)),
            ),
    {
        self.category_spending(Window::Month(now))
    }

    /// Spending by category within the calendar month that the local clock
    /// shows.
    pub fn category_spending_current_month(&self) -> (r: Vec<(String, i128)>)
        ensures
            exists|now: Date|
                #[trigger] now.is_calendar_date() && views_of(r@) == arranged::<CategoryTotal>(
                    spending_by_category(self@.transactions, Window::Month(now)),
                ),
    {
        let now = Date::today();
        self.category_spending_in_month(now)
    }
}

} // verus!
