use centsh::cashflow::MonthTotal;
use centsh::date::Date;
use centsh::ledger::{Budget, Ledger, Transaction};
use centsh::order::sort_ranked;
use centsh::suggest::suggested_limit;
use centsh::summary::Overview;
use centsh::usage::{percent_of_limit, BudgetUsage};
use centsh::window::Window;

fn day(year: i32, month: u32, day: u32) -> Date {
    Date::from_ymd(year, month, day).expect("a day that exists")
}

fn descriptions(ledger: &Ledger) -> Vec<String> {
    ledger.transactions.iter().map(|t| t.description.clone()).collect()
}

fn is_newest_first(ledger: &Ledger) -> bool {
    ledger.transactions.windows(2).all(|pair| !pair[0].date.is_before(&pair[1].date))
}

fn pairs(entries: &[(&str, i128)]) -> Vec<(String, i128)> {
    entries.iter().map(|(text, total)| (text.to_string(), *total)).collect()
}

#[test]
fn new_ledger_is_empty() {
    let ledger = Ledger::new();
    assert!(ledger.transactions.is_empty());
    assert!(ledger.budgets.is_empty());
    assert_eq!(ledger.next_tx_id, 1);
    assert_eq!(ledger.next_budget_id, 1);
}

#[test]
fn add_transaction_hands_out_identifiers_in_turn() {
    let mut ledger = Ledger::new();
    ledger.add_transaction("Rent", 170000, "Housing", day(2024, 3, 1));
    ledger.add_transaction("Pay", -410000, "Income", day(2024, 3, 27));
    ledger.add_transaction("Nothing", 0, "General", day(2030, 1, 1));
    assert_eq!(ledger.next_tx_id, 4);
    let mut ids: Vec<u64> = ledger.transactions.iter().map(|t| t.id).collect();
    ids.sort();
    assert_eq!(ids, vec![1, 2, 3]);
    let rent = ledger.transactions.iter().find(|t| t.id == 1).expect("the first entry");
    assert_eq!(
        *rent,
        Transaction {
            id: 1,
            description: "Rent".to_string(),
            amount: 170000,
            category: "Housing".to_string(),
            date: day(2024, 3, 1),
        }
    );
}

#[test]
fn add_transaction_keeps_newest_first_after_each_call() {
    let mut ledger = Ledger::new();
    let days = [
        day(2024, 3, 10),
        day(2024, 1, 5),
        day(2025, 7, 1),
        day(2024, 3, 10),
        day(2023, 12, 31),
        day(2024, 3, 11),
        day(2024, 2, 29),
    ];
    for (i, date) in days.iter().enumerate() {
        ledger.add_transaction("entry", i as i64, "General", *date);
        assert!(is_newest_first(&ledger));
        assert_eq!(ledger.transactions.len(), i + 1);
    }
    let order: Vec<Date> = ledger.transactions.iter().map(|t| t.date).collect();
    assert_eq!(
        order,
        vec![
            day(2025, 7, 1),
            day(2024, 3, 11),
            day(2024, 3, 10),
            day(2024, 3, 10),
            day(2024, 2, 29),
            day(2024, 1, 5),
            day(2023, 12, 31),
        ]
    );
}

#[test]
fn add_transaction_puts_the_new_entry_last_among_its_day() {
    let mut ledger = Ledger::new();
    ledger.add_transaction("a", 1, "General", day(2024, 3, 10));
    ledger.add_transaction("b", 2, "General", day(2024, 3, 12));
    ledger.add_transaction("c", 3, "General", day(2024, 3, 10));
    ledger.add_transaction("d", 4, "General", day(2024, 3, 10));
    ledger.add_transaction("e", 5, "General", day(2024, 3, 12));
    assert_eq!(descriptions(&ledger), vec!["b", "e", "a", "c", "d"]);
}

#[test]
fn add_transaction_puts_a_disordered_ledger_in_order() {
    let entry = |id: u64, text: &str, date: Date| Transaction {
        id,
        description: text.to_string(),
        amount: 100,
        category: "General".to_string(),
        date,
    };
    let mut ledger = Ledger {
        transactions: vec![
            entry(1, "old", day(2020, 1, 1)),
            entry(2, "new", day(2024, 1, 1)),
            entry(3, "old too", day(2020, 1, 1)),
        ],
        budgets: Vec::new(),
        next_tx_id: 4,
        next_budget_id: 1,
    };
    ledger.add_transaction("mid", 100, "General", day(2022, 1, 1));
    assert_eq!(descriptions(&ledger), vec!["new", "mid", "old", "old too"]);
}

#[test]
fn sort_ranked_is_stable() {
    let entry = |id: u64, date: Date| Transaction {
        id,
        description: String::new(),
        amount: 0,
        category: String::new(),
        date,
    };
    let mut entries = vec![
        entry(1, day(2024, 1, 1)),
        entry(2, day(2024, 1, 2)),
        entry(3, day(2024, 1, 1)),
        entry(4, day(2024, 1, 3)),
        entry(5, day(2024, 1, 2)),
    ];
    sort_ranked(&mut entries);
    let ids: Vec<u64> = entries.iter().map(|t| t.id).collect();
    assert_eq!(ids, vec![4, 2, 5, 1, 3]);
    let mut none: Vec<Transaction> = Vec::new();
    sort_ranked(&mut none);
    assert!(none.is_empty());
}

#[test]
fn add_or_update_budget_appends_a_new_category() {
    let mut ledger = Ledger::new();
    ledger.add_or_update_budget("Food", 60000);
    ledger.add_or_update_budget("Housing", 180000);
    assert_eq!(
        ledger.budgets,
        vec![
            Budget { id: 1, category: "Food".to_string(), monthly_limit: 60000 },
            Budget { id: 2, category: "Housing".to_string(), monthly_limit: 180000 },
        ]
    );
    assert_eq!(ledger.next_budget_id, 3);
}

#[test]
fn add_or_update_budget_twice_keeps_one_budget_and_its_identifier() {
    let mut ledger = Ledger::new();
    ledger.add_or_update_budget("Food", 60000);
    ledger.add_or_update_budget("Housing", 180000);
    ledger.add_or_update_budget("Food", 75000);
    assert_eq!(
        ledger.budgets,
        vec![
            Budget { id: 1, category: "Food".to_string(), monthly_limit: 75000 },
            Budget { id: 2, category: "Housing".to_string(), monthly_limit: 180000 },
        ]
    );
    assert_eq!(ledger.next_budget_id, 3);
    ledger.add_or_update_budget("Fun", 0);
    assert_eq!(ledger.budgets[2].id, 3);
    assert_eq!(ledger.next_budget_id, 4);
}

#[test]
fn add_or_update_budget_tells_categories_apart_by_case() {
    let mut ledger = Ledger::new();
    ledger.add_or_update_budget("Food", 1);
    ledger.add_or_update_budget("food", 2);
    ledger.add_or_update_budget("Food ", 3);
    assert_eq!(ledger.budgets.len(), 3);
    assert_eq!(ledger.budgets[0].monthly_limit, 1);
}

#[test]
fn add_or_update_budget_at_the_last_identifier_still_updates() {
    let mut ledger = Ledger {
        transactions: Vec::new(),
        budgets: vec![Budget { id: 7, category: "Food".to_string(), monthly_limit: 1 }],
        next_tx_id: 1,
        next_budget_id: u64::MAX,
    };
    ledger.add_or_update_budget("Food", 2);
    assert_eq!(ledger.budgets[0], Budget { id: 7, category: "Food".to_string(), monthly_limit: 2 });
    assert_eq!(ledger.next_budget_id, u64::MAX);
}

#[test]
fn budgets_by_category_has_one_limit_for_each_category() {
    let mut ledger = Ledger::new();
    ledger.add_or_update_budget("Food", 60000);
    ledger.add_or_update_budget("Housing", 180000);
    ledger.add_or_update_budget("Food", 75000);
    let limits = ledger.budgets_by_category();
    assert_eq!(limits.len(), 2);
    assert_eq!(limits.get("Food"), Some(&75000));
    assert_eq!(limits.get("Housing"), Some(&180000));
    assert_eq!(limits.get("food"), None);
    assert!(Ledger::new().budgets_by_category().is_empty());
}

#[test]
fn budgets_by_category_takes_the_last_of_a_shared_category() {
    let ledger = Ledger {
        transactions: Vec::new(),
        budgets: vec![
            Budget { id: 1, category: "Food".to_string(), monthly_limit: 1 },
            Budget { id: 2, category: "Fun".to_string(), monthly_limit: 2 },
            Budget { id: 3, category: "Food".to_string(), monthly_limit: 3 },
        ],
        next_tx_id: 1,
        next_budget_id: 4,
    };
    let limits = ledger.budgets_by_category();
    assert_eq!(limits.len(), 2);
    assert_eq!(limits.get("Food"), Some(&3));
    assert_eq!(limits.get("Fun"), Some(&2));
}

#[test]
fn month_overview_counts_zero_as_outgoing() {
    let mut ledger = Ledger::new();
    let now = day(2024, 3, 15);
    ledger.add_transaction("pay", -10000, "Income", day(2024, 3, 1));
    ledger.add_transaction("shop", 5000, "Food", day(2024, 3, 31));
    ledger.add_transaction("nothing", 0, "General", day(2024, 3, 15));
    assert_eq!(
        ledger.month_overview(now),
        Overview { total_income: 10000, total_outgoing: 5000, net: 5000 }
    );
}

#[test]
fn month_overview_leaves_other_months_out() {
    let mut ledger = Ledger::new();
    let now = day(2024, 3, 15);
    ledger.add_transaction("pay", -10000, "Income", day(2024, 2, 29));
    ledger.add_transaction("shop", 5000, "Food", day(2024, 4, 1));
    ledger.add_transaction("last year", 700, "Food", day(2023, 3, 15));
    ledger.add_transaction("shop", 300, "Food", day(2024, 3, 2));
    assert_eq!(
        ledger.month_overview(now),
        Overview { total_income: 0, total_outgoing: 300, net: -300 }
    );
    assert_eq!(
        Ledger::new().month_overview(now),
        Overview { total_income: 0, total_outgoing: 0, net: 0 }
    );
}

#[test]
fn overview_does_not_overflow_on_extreme_amounts() {
    let mut ledger = Ledger::new();
    ledger.add_transaction("a", i64::MIN, "x", day(2024, 3, 1));
    ledger.add_transaction("b", i64::MIN, "x", day(2024, 3, 1));
    ledger.add_transaction("c", i64::MAX, "x", day(2024, 3, 1));
    ledger.add_transaction("d", i64::MAX, "x", day(2024, 3, 1));
    let overview = ledger.overview(Window::All);
    assert_eq!(overview.total_income, 2 * 9223372036854775808i128);
    assert_eq!(overview.total_outgoing, 2 * 9223372036854775807i128);
    assert_eq!(overview.net, 2);
}

#[test]
fn current_month_overview_sees_an_entry_of_today() {
    let mut ledger = Ledger::new();
    let now = Date::today();
    ledger.add_transaction("pay", -10000, "Income", now);
    ledger.add_transaction("shop", 2500, "Food", now);
    let overview = ledger.current_month_overview();
    if Date::today().in_month_of(&now) {
        assert_eq!(overview, Overview { total_income: 10000, total_outgoing: 2500, net: 7500 });
    }
}

#[test]
fn category_spending_sums_by_category_largest_first() {
    let mut ledger = Ledger::new();
    let now = day(2024, 3, 15);
    ledger.add_transaction("coffee", 450, "Food", day(2024, 3, 2));
    ledger.add_transaction("rent", 170000, "Housing", day(2024, 3, 1));
    ledger.add_transaction("shop", 9050, "Food", day(2024, 3, 18));
    ledger.add_transaction("bus", 240, "Transport", day(2024, 3, 5));
    ledger.add_transaction("old", 99999, "Food", day(2024, 2, 28));
    assert_eq!(
        ledger.category_spending_in_month(now),
        pairs(&[("Housing", 170000), ("Food", 9500), ("Transport", 240)])
    );
}

#[test]
fn category_spending_leaves_income_and_zero_out() {
    let mut ledger = Ledger::new();
    let now = day(2024, 3, 15);
    ledger.add_transaction("pay", -410000, "Income", day(2024, 3, 27));
    ledger.add_transaction("refund", -500, "Food", day(2024, 3, 3));
    ledger.add_transaction("nothing", 0, "Free", day(2024, 3, 3));
    ledger.add_transaction("shop", 1400, "Food", day(2024, 3, 3));
    assert_eq!(ledger.category_spending_in_month(now), pairs(&[("Food", 1400)]));
    let before = ledger.category_spending_in_month(now);
    ledger.add_transaction("bonus", -1, "Food", day(2024, 3, 4));
    assert_eq!(ledger.category_spending_in_month(now), before);
}

#[test]
fn category_spending_of_nothing_is_empty() {
    assert_eq!(Ledger::new().category_spending_in_month(day(2024, 3, 15)), Vec::new());
    assert_eq!(Ledger::new().category_spending_current_month(), Vec::new());
}

#[test]
fn category_spending_keeps_first_occurrence_among_equal_totals() {
    let mut ledger = Ledger::new();
    ledger.add_transaction("a", 100, "B", day(2024, 3, 9));
    ledger.add_transaction("b", 100, "A", day(2024, 3, 8));
    ledger.add_transaction("c", 200, "C", day(2024, 3, 7));
    assert_eq!(
        ledger.category_spending(Window::All),
        pairs(&[("C", 200), ("B", 100), ("A", 100)])
    );
}

#[test]
fn spending_last_n_months_of_no_months_is_empty() {
    let mut ledger = Ledger::new();
    ledger.add_transaction("pay", -10000, "Income", Date::today());
    assert_eq!(ledger.spending_last_n_months(0), Vec::new());
    assert_eq!(ledger.spending_last_n_months_from(day(2024, 3, 15), 0), Vec::new());
    assert_eq!(Ledger::new().spending_last_n_months(0), Vec::new());
    assert_eq!(Ledger::sample_for(day(2024, 3, 15)).spending_last_n_months(0), Vec::new());
}

#[test]
fn spending_last_n_months_buckets_by_month() {
    let mut ledger = Ledger::new();
    let now = day(2024, 3, 15);
    ledger.add_transaction("too old", 100000, "x", day(2024, 1, 12));
    ledger.add_transaction("first day", 2000, "x", day(2024, 1, 13));
    ledger.add_transaction("pay", -410000, "Income", day(2024, 1, 27));
    ledger.add_transaction("rent", 170000, "Housing", day(2024, 3, 1));
    ledger.add_transaction("shop", 9050, "Food", day(2024, 3, 18));
    assert_eq!(
        ledger.spending_last_n_months_from(now, 2),
        pairs(&[("2024-01", 408000), ("2024-03", -179050)])
    );
    assert_eq!(ledger.spending_last_n_months_from(now, 1), pairs(&[("2024-03", -179050)]));
    assert_eq!(
        ledger.spending_last_n_months_from(now, 3),
        pairs(&[("2024-01", 308000), ("2024-03", -179050)])
    );
}

#[test]
fn spending_last_n_months_takes_days_after_now_too() {
    let mut ledger = Ledger::new();
    ledger.add_transaction("later", 100, "x", day(2025, 6, 1));
    assert_eq!(
        ledger.spending_last_n_months_from(day(2024, 3, 15), 1),
        pairs(&[("2025-06", -100)])
    );
}

#[test]
fn spending_last_n_months_of_very_many_months_holds_everything() {
    let mut ledger = Ledger::new();
    ledger.add_transaction("old", 100, "x", day(1, 1, 1));
    ledger.add_transaction("new", -300, "x", day(2024, 3, 1));
    let all = pairs(&[("1-01", -100), ("2024-03", 300)]);
    assert_eq!(ledger.spending_last_n_months_from(day(2024, 3, 15), usize::MAX), all);
    assert_eq!(ledger.spending_last_n_months_from(day(2024, 3, 15), 100_000_000), all);
}

#[test]
fn spending_last_n_months_of_today_has_this_month() {
    let mut ledger = Ledger::new();
    let now = Date::today();
    ledger.add_transaction("pay", -10000, "Income", now);
    let series = ledger.spending_last_n_months(6);
    assert_eq!(series.len(), 1);
    assert_eq!(series[0].1, 10000);
    assert_eq!(series[0].0, format!("{}-{:02}", now.year(), now.month()));
}

#[test]
fn cashflow_stands_in_the_order_of_its_labels() {
    let mut ledger = Ledger::new();
    ledger.add_transaction("a", 100, "x", day(1000, 1, 1));
    ledger.add_transaction("b", 200, "x", day(999, 1, 1));
    ledger.add_transaction("c", 300, "x", day(2024, 10, 1));
    ledger.add_transaction("d", 400, "x", day(2024, 9, 1));
    ledger.add_transaction("e", 500, "x", day(-5, 12, 1));
    assert_eq!(
        ledger.cashflow(Window::All),
        pairs(&[
            ("-5-12", -500),
            ("1000-01", -100),
            ("2024-09", -400),
            ("2024-10", -300),
            ("999-01", -200),
        ])
    );
}

#[test]
fn monthly_inflow_lists_months_as_they_first_occur() {
    let mut ledger = Ledger::new();
    ledger.add_transaction("a", 100, "x", day(2024, 3, 9));
    ledger.add_transaction("b", -250, "x", day(2024, 1, 9));
    ledger.add_transaction("c", 50, "x", day(2024, 3, 1));
    ledger.add_transaction("d", 0, "x", day(2023, 3, 1));
    assert_eq!(
        ledger.monthly_inflow(Window::All),
        vec![
            MonthTotal { year: 2024, month: 3, total: -150 },
            MonthTotal { year: 2024, month: 1, total: 250 },
            MonthTotal { year: 2023, month: 3, total: 0 },
        ]
    );
    assert_eq!(
        ledger.monthly_inflow(Window::Since(day(2024, 3, 2))),
        vec![MonthTotal { year: 2024, month: 3, total: -100 }]
    );
    assert_eq!(Ledger::new().monthly_inflow(Window::All), Vec::new());
}

#[test]
fn suggested_limit_adds_a_tenth_to_a_third() {
    assert_eq!(suggested_limit(30000), 11000);
    assert_eq!(suggested_limit(90000), 33000);
    assert_eq!(suggested_limit(15030), 5511);
    assert_eq!(suggested_limit(100000), 36667);
    assert_eq!(suggested_limit(15001), 5500);
    assert_eq!(suggested_limit(15002), 5501);
}

#[test]
fn suggested_limit_has_a_floor() {
    assert_eq!(suggested_limit(15000), 5500);
    assert_eq!(suggested_limit(1), 5500);
    assert_eq!(suggested_limit(0), 5500);
    assert_eq!(suggested_limit(-70000), 5500);
    assert_eq!(suggested_limit(i128::MIN), 5500);
}

#[test]
fn suggested_limit_fits_for_the_largest_spend() {
    assert_eq!(
        suggested_limit(i128::MAX),
        62385100602172051634952011362490838767i128
    );
}

#[test]
fn suggested_budgets_of_an_empty_ledger_are_the_fallback() {
    for suggestions in [
        Ledger::new().suggested_budgets(),
        Ledger::new().suggested_budgets_on(day(2024, 3, 31)),
        Ledger::new().suggested_budgets_within(Window::All),
    ] {
        let shown: Vec<(&str, i128, &str)> = suggestions
            .iter()
            .map(|s| (s.category.as_str(), s.suggested_limit, s.reason.as_str()))
            .collect();
        assert_eq!(
            shown,
            vec![
                ("Housing", 0, "Add your rent/mortgage so you can track it monthly"),
                ("Food", 0, "Groceries, coffee, restaurants"),
                ("Savings", 0, "Pay yourself first"),
            ]
        );
    }
}

#[test]
fn suggested_budgets_without_expenses_are_the_fallback() {
    let mut ledger = Ledger::new();
    ledger.add_transaction("pay", -410000, "Income", day(2024, 3, 27));
    ledger.add_transaction("nothing", 0, "Free", day(2024, 3, 27));
    ledger.add_transaction("old", 5000, "Food", day(2023, 12, 31));
    let suggestions = ledger.suggested_budgets_on(day(2024, 3, 31));
    let categories: Vec<&str> = suggestions.iter().map(|s| s.category.as_str()).collect();
    assert_eq!(categories, vec!["Housing", "Food", "Savings"]);
    assert!(suggestions.iter().all(|s| s.suggested_limit == 0));
}

#[test]
fn suggested_budgets_average_ninety_days() {
    let mut ledger = Ledger::new();
    ledger.add_transaction("a", 10000, "Food", day(2024, 1, 1));
    ledger.add_transaction("b", 12000, "Food", day(2024, 2, 10));
    ledger.add_transaction("c", 8000, "Food", day(2024, 3, 31));
    ledger.add_transaction("too old", 70000, "Food", day(2023, 12, 31));
    ledger.add_transaction("refund", -3000, "Food", day(2024, 3, 1));
    let suggestions = ledger.suggested_budgets_on(day(2024, 3, 31));
    assert_eq!(suggestions.len(), 1);
    assert_eq!(suggestions[0].category, "Food");
    assert_eq!(suggestions[0].suggested_limit, 11000);
    assert_eq!(suggestions[0].reason, "Last 90 days average + 10% buffer");
}

#[test]
fn suggested_budgets_stand_largest_first() {
    let mut ledger = Ledger::new();
    ledger.add_transaction("a", 100, "Small", day(2024, 3, 3));
    ledger.add_transaction("b", 300000, "Housing", day(2024, 3, 2));
    ledger.add_transaction("c", 200, "Tiny", day(2024, 3, 1));
    ledger.add_transaction("d", 60000, "Food", day(2024, 2, 1));
    let suggestions = ledger.suggested_budgets_on(day(2024, 3, 31));
    let shown: Vec<(&str, i128)> =
        suggestions.iter().map(|s| (s.category.as_str(), s.suggested_limit)).collect();
    assert_eq!(
        shown,
        vec![("Housing", 110000), ("Food", 22000), ("Small", 5500), ("Tiny", 5500)]
    );
}

#[test]
fn suggested_budgets_of_today_see_an_expense_of_today() {
    let mut ledger = Ledger::new();
    ledger.add_transaction("shop", 30000, "Food", Date::today());
    let suggestions = ledger.suggested_budgets();
    assert_eq!(suggestions.len(), 1);
    assert_eq!(suggestions[0].category, "Food");
    assert_eq!(suggestions[0].suggested_limit, 11000);
}

#[test]
fn sample_has_thirteen_transactions_and_three_budgets() {
    let ledger = Ledger::sample_for(day(2024, 3, 15));
    assert_eq!(ledger.transactions.len(), 13);
    assert_eq!(ledger.next_tx_id, 14);
    assert_eq!(ledger.next_budget_id, 4);
    assert!(is_newest_first(&ledger));
    assert_eq!(
        ledger.budgets,
        vec![
            Budget { id: 1, category: "Housing".to_string(), monthly_limit: 180000 },
            Budget { id: 2, category: "Food".to_string(), monthly_limit: 60000 },
            Budget { id: 3, category: "Transport".to_string(), monthly_limit: 25000 },
        ]
    );
    assert_eq!(
        descriptions(&ledger),
        vec![
            "Gas",
            "Groceries",
            "Bonus",
            "Savings transfer",
            "Café cowork",
            "Concert night",
            "Utilities",
            "Ride share",
            "Coffee + snacks",
            "Groceries",
            "Rent",
            "Paycheck",
            "Streaming",
        ]
    );
    assert_eq!(ledger.transactions[11].date, day(2024, 2, 27));
    assert_eq!(ledger.transactions[11].amount, -410000);
    assert_eq!(ledger.transactions[12].date, day(2024, 2, 16));
    assert_eq!(ledger.transactions[8].amount, 3250);
}

#[test]
fn sample_month_adds_up() {
    let ledger = Ledger::sample_for(day(2024, 3, 15));
    assert_eq!(
        ledger.month_overview(day(2024, 3, 15)),
        Overview { total_income: 45000, total_outgoing: 290350, net: -245350 }
    );
    assert_eq!(
        ledger.category_spending_in_month(day(2024, 3, 15)),
        pairs(&[
            ("Housing", 192000),
            ("Savings", 50000),
            ("Food", 26300),
            ("Fun", 12000),
            ("Transport", 8200),
            ("Work", 1850),
        ])
    );
    assert_eq!(
        ledger.spending_last_n_months_from(day(2024, 3, 15), 6),
        pairs(&[("2024-02", 407600), ("2024-03", -245350)])
    );
}

#[test]
fn sample_on_takes_the_earlier_month_as_given() {
    let ledger = Ledger::sample_on(day(2024, 1, 5), day(2023, 12, 6));
    assert_eq!(ledger.transactions[11].date, day(2023, 12, 27));
    assert_eq!(ledger.transactions[12].date, day(2023, 12, 16));
    assert_eq!(ledger.transactions[0].date, day(2024, 1, 21));
}

#[test]
fn with_sample_data_and_default_are_in_order() {
    for ledger in [Ledger::with_sample_data(), Ledger::default()] {
        assert_eq!(ledger.transactions.len(), 13);
        assert_eq!(ledger.next_tx_id, 14);
        assert_eq!(ledger.budgets, Ledger::sample_for(day(2024, 3, 15)).budgets);
        assert_eq!(ledger.next_budget_id, 4);
        assert!(is_newest_first(&ledger));
    }
}

#[test]
fn with_sample_data_is_the_sample_of_today() {
    let before = Date::today();
    let ledger = Ledger::with_sample_data();
    let after = Date::today();
    assert!(ledger == Ledger::sample_for(before) || ledger == Ledger::sample_for(after));
}

#[test]
fn sample_without_an_earlier_day_still_has_its_transactions() {
    let first = day(centsh::date::MIN_YEAR, 1, 1);
    let ledger = Ledger::sample_for(first);
    assert_eq!(ledger, Ledger::sample_on(first, first));
    assert_eq!(ledger.transactions.len(), 13);
    assert_eq!(ledger.next_tx_id, 14);
    assert_eq!(ledger.budgets.len(), 3);
    assert!(is_newest_first(&ledger));
    let month = Date { year: 2024, month: 2, day: 30 };
    assert_eq!(Ledger::sample_for(month).transactions.len(), 13);
}

#[test]
fn percent_of_limit_rounds_to_the_nearest() {
    assert_eq!(percent_of_limit(5000, 10000), 50);
    assert_eq!(percent_of_limit(10000, 10000), 100);
    assert_eq!(percent_of_limit(1, 3), 33);
    assert_eq!(percent_of_limit(2, 3), 67);
    assert_eq!(percent_of_limit(26300, 60000), 44);
    assert_eq!(percent_of_limit(1, 1000), 0);
    assert_eq!(percent_of_limit(6, 1000), 1);
}

#[test]
fn percent_of_limit_rounds_a_half_to_the_even() {
    assert_eq!(percent_of_limit(5, 1000), 0);
    assert_eq!(percent_of_limit(15, 1000), 2);
    assert_eq!(percent_of_limit(25, 1000), 2);
    assert_eq!(percent_of_limit(35, 1000), 4);
    assert_eq!(format!("{:.0}", 0.5f64), "0");
    assert_eq!(format!("{:.0}", 2.5f64), "2");
    assert_eq!(format!("{:.0}", 3.5f64), "4");
}

#[test]
fn percent_of_limit_stops_at_its_cap() {
    assert_eq!(percent_of_limit(9985, 1000), 998);
    assert_eq!(percent_of_limit(9994, 1000), 999);
    assert_eq!(percent_of_limit(9995, 1000), 999);
    assert_eq!(percent_of_limit(9999, 1000), 999);
    assert_eq!(percent_of_limit(10000, 1000), 999);
    assert_eq!(percent_of_limit(i128::MAX, 1), 999);
    assert_eq!(percent_of_limit(i128::MAX, i64::MAX), 999);
    assert_eq!(percent_of_limit(i64::MAX as i128, i64::MAX), 100);
}

#[test]
fn percent_of_limit_without_limit_or_spending_is_zero() {
    assert_eq!(percent_of_limit(5000, 0), 0);
    assert_eq!(percent_of_limit(5000, -100), 0);
    assert_eq!(percent_of_limit(0, 100), 0);
    assert_eq!(percent_of_limit(-5000, 100), 0);
}

#[test]
fn budget_usage_follows_the_budgets() {
    let ledger = Ledger::sample_for(day(2024, 3, 15));
    let row = |category: &str, spent: i128, limit: i64, percent: u32| BudgetUsage {
        category: category.to_string(),
        spent,
        limit,
        percent,
    };
    assert_eq!(
        ledger.budget_usage(Window::Month(day(2024, 3, 15))),
        vec![
            row("Housing", 192000, 180000, 107),
            row("Food", 26300, 60000, 44),
            row("Transport", 8200, 25000, 33),
        ]
    );
    assert_eq!(
        ledger.budget_usage(Window::Month(day(2024, 2, 15))),
        vec![
            row("Housing", 0, 180000, 0),
            row("Food", 0, 60000, 0),
            row("Transport", 0, 25000, 0),
        ]
    );
    assert_eq!(Ledger::new().budget_usage(Window::All), Vec::new());
}
