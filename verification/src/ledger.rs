//! The ledger: transactions kept newest first, budgets unique by category,
//! and the two counters that hand out identifiers.

use crate::date::Date;
use crate::order::{
    arranged, in_order, lemma_arranged_fixes_ordered, lemma_arranged_in_order, lemma_slot_bounds,
    placed, slot_for, sort_ranked, views_of, Ranked,
};
use vstd::hash_map::StringHashMap;
use vstd::prelude::*;

verus! {

/// One movement of money. A positive amount is money leaving, a negative
/// amount is income; both are counted in hundredths.
#[derive(Debug, Clone, PartialEq, Eq)]
pub struct Transaction {
    pub id: u64,
    pub description: String,
    pub amount: i64,
    pub category: String,
    pub date: Date,
}

/// A [`Transaction`] with its texts as sequences of characters.
pub struct TransactionView {
    pub id: u64,
    pub description: Seq<char>,
    pub amount: i64,
    pub category: Seq<char>,
    pub date: Date,
}

impl View for Transaction {
    type V = TransactionView;

    open spec fn view(&self) -> TransactionView {
        TransactionView {
            id: self.id,
            description: self.description@,
            amount: self.amount,
            category: self.category@,
            date: self.date,
        }
    }
}

/// Transactions stand newest first.
impl Ranked for Transaction {
    open spec fn outranks(a: TransactionView, b: TransactionView) -> bool {
        b.date.precedes(a.date)
    }

    fn stands_before(&self, other: &Self) -> (b: bool) {
        other.date.is_before(&self.date)
    }

    proof fn lemma_ranking(a: TransactionView, b: TransactionView, c: TransactionView) {
    }
}

/// What is entered for a transaction: everything but its identifier.
pub struct EntryView {
    pub description: Seq<char>,
    pub amount: i64,
    pub category: Seq<char>,
    pub date: Date,
}

/// The monthly cap of one category, in hundredths.
#[derive(Debug, Clone, PartialEq, Eq)]
pub struct Budget {
    pub id: u64,
    pub category: String,
    pub monthly_limit: i64,
}

/// A [`Budget`] with its category as a sequence of characters.
pub struct BudgetView {
    pub id: u64,
    pub category: Seq<char>,
    pub monthly_limit: i64,
}

impl View for Budget {
    type V = BudgetView;

    open spec fn view(&self) -> BudgetView {
        BudgetView { id: self.id, category: self.category@, monthly_limit: self.monthly_limit }
    }
}

/// All transactions and budgets of one session.
#[derive(Debug, Clone, PartialEq, Eq)]
pub struct Ledger {
    pub transactions: Vec<Transaction>,
    pub budgets: Vec<Budget>,
    pub next_tx_id: u64,
    pub next_budget_id: u64,
}

/// A [`Ledger`] as sequences of views.
pub struct LedgerView {
    pub transactions: Seq<TransactionView>,
    pub budgets: Seq<BudgetView>,
    pub next_tx_id: u64,
    pub next_budget_id: u64,
}

impl View for Ledger {
    type V = LedgerView;

    open spec fn view(&self) -> LedgerView {
        LedgerView {
            transactions: views_of(self.transactions@),
            budgets: views_of(self.budgets@),
            next_tx_id: self.next_tx_id,
            next_budget_id: self.next_budget_id,
        }
    }
}

/// No two budgets share a category.
pub open spec fn categories_distinct(budgets: Seq<BudgetView>) -> bool {
    forall|i: int, j: int|
        0 <= i < j < budgets.len() ==> budgets[i].category != budgets[j].category
}

/// No two transactions share an identifier, and all lie below `next`.
pub open spec fn tx_ids_issued(transactions: Seq<TransactionView>, next: u64) -> bool {
    &&& forall|i: int| 0 <= i < transactions.len() ==> (#[trigger] transactions[i]).id < next
    &&& forall|i: int, j: int|
        0 <= i < j < transactions.len() ==> transactions[i].id != transactions[j].id
}

/// No two budgets share an identifier, and all lie below `next`.
pub open spec fn budget_ids_issued(budgets: Seq<BudgetView>, next: u64) -> bool {
    &&& forall|i: int| 0 <= i < budgets.len() ==> (#[trigger] budgets[i]).id < next
    &&& forall|i: int, j: int| 0 <= i < j < budgets.len() ==> budgets[i].id != budgets[j].id
}

impl LedgerView {
    /// Transactions newest first, budgets unique by category, identifiers
    /// unique and below the counters.
    pub open spec fn well_formed(self) -> bool {
        &&& in_order::<Transaction>(self.transactions)
        &&& categories_distinct(self.budgets)
        &&& tx_ids_issued(self.transactions, self.next_tx_id)
        &&& budget_ids_issued(self.budgets, self.next_budget_id)
    }

    /// The ledger after a transaction is recorded: it gets the next
    /// identifier and the transactions are arranged newest first, entries
    /// of one day in the order in which they stood, the new one last.
    pub open spec fn with_transaction(
        self,
        description: Seq<char>,
        amount: i64,
        category: Seq<char>,
        date: Date,
    ) -> LedgerView {
        LedgerView {
            transactions: arranged::<Transaction>(
                self.transactions.push(
                    TransactionView { id: self.next_tx_id, description, amount, category, date },
                ),
            ),
            budgets: self.budgets,
            next_tx_id: (self.next_tx_id + 1) as u64,
            next_budget_id: self.next_budget_id,
        }
    }

    /// The ledger after the limit of a category is set.
    pub open spec fn with_budget(self, category: Seq<char>, monthly_limit: i64) -> LedgerView {
        LedgerView {
            transactions: self.transactions,
            budgets: upserted(self.budgets, self.next_budget_id, category, monthly_limit),
            next_tx_id: self.next_tx_id,
            next_budget_id: if budget_index(self.budgets, category) < self.budgets.len() {
                self.next_budget_id
            } else {
                (self.next_budget_id + 1) as u64
            },
        }
    }
}

/// Index of the first budget for `category`; `budgets.len()` if there is
/// none.
pub open spec fn budget_index(budgets: Seq<BudgetView>, category: Seq<char>) -> int
    decreases budgets.len(),
{
    if budgets.len() == 0 || budgets[0].category == category {
        0
    } else {
        1 + budget_index(budgets.drop_first(), category)
    }
}

/// `budgets` after the limit of `category` is set: the first budget of that
/// category gets the limit and keeps its identifier; where there is none, a
/// budget with the identifier `next_id` is appended.
pub open spec fn upserted(
    budgets: Seq<BudgetView>,
    next_id: u64,
    category: Seq<char>,
    monthly_limit: i64,
) -> Seq<BudgetView> {
    let i = budget_index(budgets, category);
    if i < budgets.len() {
        budgets.update(i, BudgetView { id: budgets[i].id, category, monthly_limit })
    } else {
        budgets.push(BudgetView { id: next_id, category, monthly_limit })
    }
}

/// [`budget_index`] lies within the sequence or at its end, no budget in
/// front of it has the category, and the budget that stands there has it.
pub proof fn lemma_budget_index(budgets: Seq<BudgetView>, category: Seq<char>)
    ensures
        0 <= budget_index(budgets, category) <= budgets.len(),
        forall|j: int|
            0 <= j < budget_index(budgets, category) ==> (#[trigger] budgets[j]).category
                != category,
        budget_index(budgets, category) < budgets.len() ==> budgets[budget_index(
            budgets,
            category,
        )].category == category,
    decreases budgets.len(),
{
    if budgets.len() == 0 || budgets[0].category == category {
    } else {
        let rest = budgets.drop_first();
        lemma_budget_index(rest, category);
        let k = budget_index(rest, category);
        assert forall|j: int| 0 <= j < k + 1 implies (#[trigger] budgets[j]).category
            != category by {
            if j > 0 {
                assert(budgets[j] == rest[j - 1]);
            }
        }
        if k < rest.len() {
            assert(rest[k] == budgets[k + 1]);
        }
    }
}

/// The index in front of which no budget has the category and at which one
/// has it is [`budget_index`].
pub proof fn lemma_budget_index_is(budgets: Seq<BudgetView>, category: Seq<char>, k: int)
    requires
        0 <= k <= budgets.len(),
        forall|j: int| 0 <= j < k ==> (#[trigger] budgets[j]).category != category,
        k < budgets.len() ==> budgets[k].category == category,
    ensures
        budget_index(budgets, category) == k,
    decreases budgets.len(),
{
    if budgets.len() == 0 {
    } else if k == 0 {
    } else {
        assert(budgets[0].category != category);
        let rest = budgets.drop_first();
        assert forall|j: int| 0 <= j < k - 1 implies (#[trigger] rest[j]).category
            != category by {
            assert(rest[j] == budgets[j + 1]);
        }
        if k - 1 < rest.len() {
            assert(rest[k - 1] == budgets[k]);
        }
        lemma_budget_index_is(rest, category, k - 1);
    }
}

/// Setting a limit never makes two budgets share a category.
pub proof fn lemma_upserted_keeps_categories_distinct(
    budgets: Seq<BudgetView>,
    next_id: u64,
    category: Seq<char>,
    monthly_limit: i64,
)
    requires
        categories_distinct(budgets),
    ensures
        categories_distinct(upserted(budgets, next_id, category, monthly_limit)),
{
    lemma_budget_index(budgets, category);
    let k = budget_index(budgets, category);
    let after = upserted(budgets, next_id, category, monthly_limit);
    assert forall|i: int, j: int| 0 <= i < j < after.len() implies after[i].category
        != after[j].category by {
        if k < budgets.len() {
            assert(after[i].category == budgets[i].category);
            assert(after[j].category == budgets[j].category);
        } else if j == budgets.len() {
            assert(after[i] == budgets[i]);
        } else {
            assert(after[i] == budgets[i]);
            assert(after[j] == budgets[j]);
        }
    }
}

/// After the limit of a category is set, a budget of that category holds
/// the limit; where no two budgets shared a category, it is the only one of
/// that category.
pub proof fn lemma_upserted_sets_limit(
    budgets: Seq<BudgetView>,
    next_id: u64,
    category: Seq<char>,
    monthly_limit: i64,
)
    ensures
        ({
            let after = upserted(budgets, next_id, category, monthly_limit);
            let k = budget_index(after, category);
            &&& 0 <= k < after.len()
            &&& after[k].category == category
            &&& after[k].monthly_limit == monthly_limit
            &&& categories_distinct(budgets) ==> forall|j: int|
                0 <= j < after.len() && j != k ==> (#[trigger] after[j]).category != category
        }),
{
    lemma_budget_index(budgets, category);
    let at = budget_index(budgets, category);
    let after = upserted(budgets, next_id, category, monthly_limit);
    assert forall|j: int| 0 <= j < at implies (#[trigger] after[j]).category != category by {
        assert(after[j] == budgets[j]);
    }
    lemma_budget_index_is(after, category, at);
    if categories_distinct(budgets) {
        lemma_upserted_keeps_categories_distinct(budgets, next_id, category, monthly_limit);
    }
}

/// Setting the limit of one category twice leaves one budget for it: the
/// second call changes the limit in place and keeps the identifier that the
/// first call left.
pub proof fn lemma_upserted_twice(
    budgets: Seq<BudgetView>,
    first_id: u64,
    second_id: u64,
    category: Seq<char>,
    first_limit: i64,
    second_limit: i64,
)
    ensures
        ({
            let once = upserted(budgets, first_id, category, first_limit);
            let twice = upserted(once, second_id, category, second_limit);
            let k = budget_index(once, category);
            &&& 0 <= k < once.len()
            &&& twice.len() == once.len()
            &&& twice == once.update(
                k,
                BudgetView { id: once[k].id, category, monthly_limit: second_limit },
            )
            &&& twice == upserted(budgets, first_id, category, second_limit)
        }),
{
    lemma_budget_index(budgets, category);
    let k = budget_index(budgets, category);
    let once = upserted(budgets, first_id, category, first_limit);
    assert forall|j: int| 0 <= j < k implies (#[trigger] once[j]).category != category by {
        assert(once[j] == budgets[j]);
    }
    lemma_budget_index_is(once, category, k);
    let twice = upserted(once, second_id, category, second_limit);
    assert(twice =~= upserted(budgets, first_id, category, second_limit));
}

/// `ledger` after the `entries` are recorded one after another.
pub open spec fn recorded(ledger: LedgerView, entries: Seq<EntryView>) -> LedgerView
    decreases entries.len(),
{
    if entries.len() == 0 {
        ledger
    } else {
        recorded(ledger, entries.drop_last()).with_transaction(
            entries.last().description,
            entries.last().amount,
            entries.last().category,
            entries.last().date,
        )
    }
}

/// Every entry that is recorded adds one transaction and draws one
/// identifier; the budgets stay as they are.
pub proof fn lemma_recorded_counts(ledger: LedgerView, entries: Seq<EntryView>)
    requires
        ledger.next_tx_id + entries.len() <= u64::MAX,
    ensures
        recorded(ledger, entries).transactions.len() == ledger.transactions.len() + entries.len(),
        recorded(ledger, entries).next_tx_id == ledger.next_tx_id + entries.len(),
        recorded(ledger, entries).budgets == ledger.budgets,
        recorded(ledger, entries).next_budget_id == ledger.next_budget_id,
    decreases entries.len(),
{
    if entries.len() > 0 {
        let earlier = recorded(ledger, entries.drop_last());
        lemma_recorded_counts(ledger, entries.drop_last());
        lemma_arranged_in_order::<Transaction>(
            earlier.transactions.push(
                TransactionView {
                    id: earlier.next_tx_id,
                    description: entries.last().description,
                    amount: entries.last().amount,
                    category: entries.last().category,
                    date: entries.last().date,
                },
            ),
        );
    }
}

/// Whatever is recorded, in whatever order, the transactions stand newest
/// first after each entry.
pub proof fn lemma_recorded_in_order(ledger: LedgerView, entries: Seq<EntryView>)
    requires
        entries.len() > 0,
    ensures
        in_order::<Transaction>(recorded(ledger, entries).transactions),
        forall|n: int|
            0 < n <= entries.len() ==> in_order::<Transaction>(
                #[trigger] recorded(ledger, entries.take(n)).transactions,
            ),
{
    assert forall|n: int| 0 < n <= entries.len() implies in_order::<Transaction>(
        #[trigger] recorded(ledger, entries.take(n)).transactions,
    ) by {
        let upto = entries.take(n);
        let earlier = recorded(ledger, upto.drop_last());
        lemma_arranged_in_order::<Transaction>(
            earlier.transactions.push(
                TransactionView {
                    id: earlier.next_tx_id,
                    description: upto.last().description,
                    amount: upto.last().amount,
                    category: upto.last().category,
                    date: upto.last().date,
                },
            ),
        );
    }
    assert(entries.take(entries.len() as int) == entries);
}

/// The limit of each category: of the last budget of a category, where
/// several share it.
pub open spec fn limits_of(budgets: Seq<BudgetView>) -> Map<Seq<char>, i64>
    decreases budgets.len(),
{
    if budgets.len() == 0 {
        Map::empty()
    } else {
        limits_of(budgets.drop_last()).insert(
            budgets.last().category,
            budgets.last().monthly_limit,
        )
    }
}

/// The limits hold exactly the categories of the budgets; where no two
/// budgets share a category, each category has the limit of its budget.
pub proof fn lemma_limits_of(budgets: Seq<BudgetView>)
    ensures
        forall|c: Seq<char>| #[trigger]
            limits_of(budgets).dom().contains(c) <==> exists|i: int|
                0 <= i < budgets.len() && (#[trigger] budgets[i]).category == c,
        categories_distinct(budgets) ==> forall|i: int|
            0 <= i < budgets.len() ==> limits_of(budgets)[(#[trigger] budgets[i]).category]
                == budgets[i].monthly_limit,
    decreases budgets.len(),
{
    if budgets.len() > 0 {
        let front = budgets.drop_last();
        let last = budgets.last();
        lemma_limits_of(front);
        assert forall|c: Seq<char>| #[trigger]
            limits_of(budgets).dom().contains(c) <==> exists|i: int|
                0 <= i < budgets.len() && (#[trigger] budgets[i]).category == c by {
            if limits_of(budgets).dom().contains(c) {
                if c == last.category {
                    assert(budgets[budgets.len() - 1].category == c);
                } else {
                    assert(limits_of(front).dom().contains(c));
                    let i = choose|i: int|
                        0 <= i < front.len() && (#[trigger] front[i]).category == c;
                    assert(budgets[i].category == c);
                }
            }
            if exists|i: int| 0 <= i < budgets.len() && (#[trigger] budgets[i]).category == c {
                let i = choose|i: int|
                    0 <= i < budgets.len() && (#[trigger] budgets[i]).category == c;
                if i < front.len() {
                    assert(front[i].category == c);
                    assert(limits_of(front).dom().contains(c));
                }
            }
        }
        if categories_distinct(budgets) {
            assert(categories_distinct(front)) by {
                assert forall|i: int, j: int| 0 <= i < j < front.len() implies front[i].category
                    != front[j].category by {
                    assert(front[i] == budgets[i]);
                    assert(front[j] == budgets[j]);
                }
            }
            assert forall|i: int| 0 <= i < budgets.len() implies limits_of(budgets)[(
            #[trigger] budgets[i]).category] == budgets[i].monthly_limit by {
                if i < front.len() {
                    assert(front[i] == budgets[i]);
                    assert(budgets[i].category != budgets[budgets.len() - 1].category);
                }
            }
        }
    }
}

impl Ledger {
    /// The monthly limit of each category that has a budget.
    pub fn budgets_by_category(&self) -> (limits: StringHashMap<i64>)
        ensures
            limits@ == limits_of(self@.budgets),
    {
        let ghost budgets = self@.budgets;
        let n: usize = self.budgets.len();
        let mut limits: StringHashMap<i64> = StringHashMap::new();
        let mut i: usize = 0;
        assert(budgets.take(0).len() == 0);
        while i < n
            invariant
                i <= n,
                n == self.budgets@.len(),
                budgets == self@.budgets,
                limits@ == limits_of(budgets.take(i as int)),
            decreases n - i,
        {
            proof {
                assert(budgets.take(i + 1).drop_last() == budgets.take(i as int));
                assert(budgets.take(i + 1).last() == self.budgets@[i as int]@);
            }
            limits.insert(self.budgets[i].category.clone(), self.budgets[i].monthly_limit);
            i += 1;
        }
        assert(budgets.take(n as int) == budgets);
        limits
    }

    /// A ledger without transactions and budgets, whose counters start at 1.
    pub fn new() -> (ledger: Ledger)
        ensures
            ledger@.transactions.len() == 0,
            ledger@.budgets.len() == 0,
            ledger@.next_tx_id == 1,
            ledger@.next_budget_id == 1,
            ledger@.well_formed(),
    {
        Ledger { transactions: Vec::new(), budgets: Vec::new(), next_tx_id: 1, next_budget_id: 1 }
    }

    /// Records a transaction under the next identifier and puts the
    /// transactions in order again: newest first, entries of one day in the
    /// order in which they stood, the new one last among them.
    pub fn add_transaction(&mut self, description: &str, amount: i64, category: &str, date: Date)
        requires
            old(self).next_tx_id < u64::MAX,
        ensures
            final(self)@ == old(self)@.with_transaction(description@, amount, category@, date),
            in_order::<Transaction>(final(self)@.transactions),
            in_order::<Transaction>(old(self)@.transactions) ==> final(self)@.transactions
                == placed::<Transaction>(
                old(self)@.transactions,
                TransactionView {
                    id: old(self).next_tx_id,
                    description: description@,
                    amount,
                    category: category@,
                    date,
                },
            ),
            old(self)@.well_formed() ==> final(self)@.well_formed(),
    {
        let ghost before = self@;
        let ghost entry = TransactionView {
            id: self.next_tx_id,
            description: description@,
            amount,
            category: category@,
            date,
        };
        let tx = Transaction {
            id: self.next_tx_id,
            description: description.to_owned(),
            amount,
            category: category.to_owned(),
            date,
        };
        self.next_tx_id = self.next_tx_id + 1;
        self.transactions.push(tx);
        assert(views_of(self.transactions@) == before.transactions.push(entry));
        sort_ranked(&mut self.transactions);
        proof {
            let grown = before.transactions.push(entry);
            lemma_arranged_in_order::<Transaction>(grown);
            assert(grown.drop_last() == before.transactions);
            if in_order::<Transaction>(before.transactions) {
                lemma_arranged_fixes_ordered::<Transaction>(before.transactions);
            }
            if before.well_formed() {
                lemma_slot_bounds::<Transaction>(before.transactions, entry);
                let k = slot_for::<Transaction>(before.transactions, entry);
                let after = self@.transactions;
                assert(after == before.transactions.insert(k, entry));
                assert forall|i: int| 0 <= i < after.len() implies (#[trigger] after[i]).id
                    < self.next_tx_id by {
                    if i < k {
                        assert(after[i] == before.transactions[i]);
                    } else if i > k {
                        assert(after[i] == before.transactions[i - 1]);
                    }
                }
                assert forall|i: int, j: int| 0 <= i < j < after.len() implies after[i].id
                    != after[j].id by {
                    let a = if i < k {
                        i
                    } else {
                        i - 1
                    };
                    let b = if j < k {
                        j
                    } else {
                        j - 1
                    };
                    if i != k {
                        assert(after[i] == before.transactions[a]);
                    }
                    if j != k {
                        assert(after[j] == before.transactions[b]);
                    }
                }
            }
        }
    }

    /// Sets the monthly limit of a category. A budget of exactly that
    /// category keeps its identifier and gets the new limit; otherwise a
    /// budget with the next identifier is appended.
    pub fn add_or_update_budget(&mut self, category: &str, monthly_limit: i64)
        requires
            budget_index(old(self)@.budgets, category@) < old(self)@.budgets.len() || old(
                self,
            ).next_budget_id < u64::MAX,
        ensures
            final(self)@ == old(self)@.with_budget(category@, monthly_limit),
            categories_distinct(old(self)@.budgets) ==> categories_distinct(final(self)@.budgets),
            old(self)@.well_formed() ==> final(self)@.well_formed(),
    {
        let ghost before = self@;
        let wanted: String = category.to_owned();
        let n: usize = self.budgets.len();
        let mut i: usize = 0;
        while i < n && !(self.budgets[i].category == wanted)
            invariant
                i <= n,
                n == self.budgets@.len(),
                self@ == before,
                wanted@ == category@,
                forall|j: int| 0 <= j < i ==> (#[trigger] before.budgets[j]).category != category@,
            decreases n - i,
        {
            i += 1;
        }
        proof {
            lemma_budget_index_is(before.budgets, category@, i as int);
            if categories_distinct(before.budgets) {
                lemma_upserted_keeps_categories_distinct(
                    before.budgets,
                    before.next_budget_id,
                    category@,
                    monthly_limit,
                );
            }
        }
        if i < n {
            let id: u64 = self.budgets[i].id;
            self.budgets.set(i, Budget { id, category: wanted, monthly_limit });
            assert(self@.budgets =~= upserted(
                before.budgets,
                before.next_budget_id,
                category@,
                monthly_limit,
            ));
        } else {
            let budget = Budget { id: self.next_budget_id, category: wanted, monthly_limit };
            self.next_budget_id = self.next_budget_id + 1;
            self.budgets.push(budget);
            assert(self@.budgets =~= upserted(
                before.budgets,
                before.next_budget_id,
                category@,
                monthly_limit,
            ));
        }
    }
}

} // verus!
