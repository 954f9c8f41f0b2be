use centsh::date::Date;
use centsh::form::{read_date, BudgetForm, DateEntry, FormError, NewBudget, NewTransaction, TxForm};

fn day(year: i32, month: u32, day: u32) -> Date {
    Date::from_ymd(year, month, day).expect("a day that exists")
}

fn tx_form(texts: [&str; 4]) -> TxForm {
    let mut form = TxForm::new_on(day(2024, 3, 5));
    for (i, text) in texts.iter().enumerate() {
        while !form.fields()[i].value.is_empty() {
            form.backspace();
        }
        for c in text.chars() {
            form.push_char(c);
        }
        form.next();
    }
    form
}

fn budget_form(texts: [&str; 2]) -> BudgetForm {
    let mut form = BudgetForm::new();
    for (i, text) in texts.iter().enumerate() {
        while !form.fields()[i].value.is_empty() {
            form.backspace();
        }
        for c in text.chars() {
            form.push_char(c);
        }
        form.next();
    }
    form
}

fn tx_values(form: &TxForm) -> Vec<&str> {
    form.fields().iter().map(|f| f.value.as_str()).collect()
}

#[test]
fn new_transaction_form_shows_its_defaults() {
    let form = TxForm::new_on(day(2024, 3, 5));
    assert_eq!(form.index(), 0);
    let labels: Vec<&str> = form.fields().iter().map(|f| f.label).collect();
    assert_eq!(labels, vec!["Description", "Amount (+out / -in)", "Category", "Date (YYYY-MM-DD)"]);
    assert_eq!(tx_values(&form), vec!["", "", "General", "2024-03-05"]);
}

#[test]
fn new_transaction_form_prints_years_as_chrono_does() {
    assert_eq!(tx_values(&TxForm::new_on(day(987, 12, 1)))[3], "0987-12-01");
    assert_eq!(tx_values(&TxForm::new_on(day(12345, 1, 31)))[3], "+12345-01-31");
    assert_eq!(tx_values(&TxForm::new_on(day(-1, 1, 1)))[3], "-0001-01-01");
    assert_eq!(tx_values(&TxForm::new_on(Date { year: 2024, month: 2, day: 30 }))[3], "");
}

#[test]
fn new_transaction_form_of_the_clock_shows_today() {
    let before = Date::today();
    let form = TxForm::new();
    let after = Date::today();
    let shown = tx_values(&form)[3].to_string();
    let expected = |d: Date| format!("{:04}-{:02}-{:02}", d.year(), d.month(), d.day());
    assert!(shown == expected(before) || shown == expected(after));
}

#[test]
fn new_budget_form_shows_its_defaults() {
    let form = BudgetForm::new();
    assert_eq!(form.index(), 0);
    let shown: Vec<(&str, &str)> =
        form.fields().iter().map(|f| (f.label, f.value.as_str())).collect();
    assert_eq!(shown, vec![("Category", "General"), ("Monthly limit", "")]);
}

#[test]
fn cursor_stops_at_both_ends() {
    let mut form = TxForm::new_on(day(2024, 3, 5));
    form.prev();
    assert_eq!(form.index(), 0);
    form.next();
    assert_eq!(form.index(), 1);
    form.next();
    form.next();
    assert_eq!(form.index(), 3);
    form.next();
    assert_eq!(form.index(), 3);
    form.prev();
    assert_eq!(form.index(), 2);

    let mut form = BudgetForm::new();
    form.prev();
    assert_eq!(form.index(), 0);
    form.next();
    assert_eq!(form.index(), 1);
    form.next();
    assert_eq!(form.index(), 1);
    form.prev();
    form.prev();
    assert_eq!(form.index(), 0);
}

#[test]
fn typing_changes_the_field_under_the_cursor() {
    let mut form = TxForm::new_on(day(2024, 3, 5));
    form.push_char('T');
    form.push_char('e');
    form.push_char('é');
    form.backspace();
    form.push_char('a');
    assert_eq!(tx_values(&form), vec!["Tea", "", "General", "2024-03-05"]);
    form.next();
    form.backspace();
    form.push_char('4');
    form.next();
    form.backspace();
    assert_eq!(tx_values(&form), vec!["Tea", "4", "Genera", "2024-03-05"]);
    assert_eq!(form.index(), 2);

    let mut form = BudgetForm::new();
    form.backspace();
    form.next();
    form.backspace();
    form.push_char('7');
    let shown: Vec<&str> = form.fields().iter().map(|f| f.value.as_str()).collect();
    assert_eq!(shown, vec!["Genera", "7"]);
}

#[test]
fn current_mut_is_the_field_under_the_cursor() {
    let mut form = TxForm::new_on(day(2024, 3, 5));
    form.next();
    form.next();
    assert_eq!(form.current_mut().label, "Category");
    form.current_mut().value = "Food".to_string();
    assert_eq!(tx_values(&form), vec!["", "", "Food", "2024-03-05"]);
    let mut form = BudgetForm::new();
    form.next();
    form.current_mut().value.push_str("12");
    assert_eq!(form.fields()[1].value, "12");
}

#[test]
fn transaction_form_with_all_fields_is_accepted() {
    let form = tx_form(["  Coffee  ", " 4.5 ", " Food ", " 2024-02-29 "]);
    assert_eq!(
        form.try_submit_on(day(2024, 3, 5)),
        Ok(NewTransaction {
            description: "Coffee".to_string(),
            amount: 450,
            category: "Food".to_string(),
            date: day(2024, 2, 29),
        })
    );
}

#[test]
fn transaction_form_without_description_is_refused_whatever_else_it_holds() {
    let today = day(2024, 3, 5);
    for rest in [
        ["4.5", "Food", "2024-02-29"],
        ["", "", ""],
        ["12.5x", "Food", "2024-02-29"],
        ["4.5", "Food", "yesterday"],
        ["x", "", "2024-13-01"],
    ] {
        for description in ["", "   ", "\t\n"] {
            let form = tx_form([description, rest[0], rest[1], rest[2]]);
            assert_eq!(form.try_submit_on(today), Err(FormError::DescriptionRequired));
            assert_eq!(form.try_submit(), Err(FormError::DescriptionRequired));
            for entry in [DateEntry::Blank, DateEntry::Unreadable, DateEntry::Day(today)] {
                assert_eq!(form.validate(entry, today), Err(FormError::DescriptionRequired));
            }
        }
    }
}

#[test]
fn transaction_form_wants_an_amount() {
    let today = day(2024, 3, 5);
    assert_eq!(
        tx_form(["Coffee", "", "Food", ""]).try_submit_on(today),
        Err(FormError::AmountRequired)
    );
    assert_eq!(
        tx_form(["Coffee", "  ", "Food", "no date"]).try_submit_on(today),
        Err(FormError::AmountRequired)
    );
}

#[test]
fn transaction_form_wants_a_number_for_the_amount() {
    let today = day(2024, 3, 5);
    assert_eq!(
        tx_form(["Coffee", "12.5x", "Food", ""]).try_submit_on(today),
        Err(FormError::AmountNotANumber)
    );
    assert_eq!(
        tx_form(["Coffee", "12.5x", "Food", "no date"]).try_submit_on(today),
        Err(FormError::AmountNotANumber)
    );
    assert_eq!(
        tx_form(["Coffee", "1 2", "Food", ""]).try_submit_on(today),
        Err(FormError::AmountNotANumber)
    );
}

#[test]
fn transaction_form_fills_in_category_and_date() {
    let today = day(2024, 3, 5);
    assert_eq!(
        tx_form(["Pay", "-20", "", ""]).try_submit_on(today),
        Ok(NewTransaction {
            description: "Pay".to_string(),
            amount: -2000,
            category: "General".to_string(),
            date: today,
        })
    );
    assert_eq!(
        tx_form(["Pay", "-20", "  ", " \t "]).try_submit_on(today),
        Ok(NewTransaction {
            description: "Pay".to_string(),
            amount: -2000,
            category: "General".to_string(),
            date: today,
        })
    );
}

#[test]
fn transaction_form_of_the_clock_fills_in_today() {
    let before = Date::today();
    let entry = tx_form(["Pay", "-20", "", ""]).try_submit().expect("an accepted form");
    let after = Date::today();
    assert_eq!(entry.description, "Pay");
    assert_eq!(entry.amount, -2000);
    assert_eq!(entry.category, "General");
    assert!(entry.date == before || entry.date == after);
}

#[test]
fn transaction_form_wants_a_date_that_exists() {
    let today = day(2024, 3, 5);
    for text in ["2024-02-30", "yesterday", "2024/02/28", "24-02-2024", "2024-02", "2024-02-28x"] {
        assert_eq!(
            tx_form(["Pay", "-20", "", text]).try_submit_on(today),
            Err(FormError::DateNotADate)
        );
    }
}

#[test]
fn transaction_form_takes_zero_and_days_to_come() {
    assert_eq!(
        tx_form(["Plan", "0", "Later", "2999-12-31"]).try_submit_on(day(2024, 3, 5)),
        Ok(NewTransaction {
            description: "Plan".to_string(),
            amount: 0,
            category: "Later".to_string(),
            date: day(2999, 12, 31),
        })
    );
}

#[test]
fn validate_goes_by_the_entry_it_is_given() {
    let today = day(2024, 3, 5);
    let form = tx_form(["Pay", "-20", "", "no date"]);
    assert_eq!(form.validate(DateEntry::Unreadable, today), Err(FormError::DateNotADate));
    assert_eq!(form.validate(DateEntry::Blank, today).map(|t| t.date), Ok(today));
    assert_eq!(
        form.validate(DateEntry::Day(day(2020, 1, 1)), today).map(|t| t.date),
        Ok(day(2020, 1, 1))
    );
}

#[test]
fn read_date_reads_iso_days() {
    assert_eq!(read_date(""), DateEntry::Blank);
    assert_eq!(read_date("2024-02-29"), DateEntry::Day(day(2024, 2, 29)));
    assert_eq!(read_date("2023-02-29"), DateEntry::Unreadable);
    assert_eq!(read_date("0001-01-01"), DateEntry::Day(day(1, 1, 1)));
    assert_eq!(read_date("+12345-06-07"), DateEntry::Day(day(12345, 6, 7)));
    assert_eq!(read_date("today"), DateEntry::Unreadable);
    assert_eq!(read_date(" "), DateEntry::Unreadable);
}

#[test]
fn budget_form_is_accepted() {
    assert_eq!(
        budget_form([" Food ", " 600 "]).try_submit(),
        Ok(NewBudget { category: "Food".to_string(), monthly_limit: 60000 })
    );
    assert_eq!(
        budget_form(["Debt", "-12.5"]).try_submit(),
        Ok(NewBudget { category: "Debt".to_string(), monthly_limit: -1250 })
    );
    assert_eq!(
        budget_form(["Free", "0"]).try_submit(),
        Ok(NewBudget { category: "Free".to_string(), monthly_limit: 0 })
    );
}

#[test]
fn budget_form_wants_a_category() {
    assert_eq!(budget_form(["", "600"]).try_submit(), Err(FormError::CategoryRequired));
    assert_eq!(budget_form(["  ", "x"]).try_submit(), Err(FormError::CategoryRequired));
}

#[test]
fn budget_form_wants_a_number_for_the_limit() {
    assert_eq!(budget_form(["Food", ""]).try_submit(), Err(FormError::LimitNotANumber));
    assert_eq!(budget_form(["Food", "  "]).try_submit(), Err(FormError::LimitNotANumber));
    assert_eq!(budget_form(["Food", "$600"]).try_submit(), Err(FormError::LimitNotANumber));
    assert_eq!(budget_form(["Food", "6oo"]).try_submit(), Err(FormError::LimitNotANumber));
}

#[test]
fn errors_have_their_messages() {
    assert_eq!(FormError::DescriptionRequired.message(), "Description is required");
    assert_eq!(FormError::AmountRequired.message(), "Amount is required");
    assert_eq!(
        FormError::AmountNotANumber.message(),
        "Amount must be a number (use negative for income)"
    );
    assert_eq!(FormError::DateNotADate.message(), "Date must be YYYY-MM-DD");
    assert_eq!(FormError::CategoryRequired.message(), "Category is required");
    assert_eq!(FormError::LimitNotANumber.message(), "Monthly limit must be a number (no $ sign)");
}
