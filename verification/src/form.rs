//! The entry forms: a few labelled text fields, a cursor, and the rules
//! that turn the texts into a transaction or a budget.

use crate::date::{iso_date_of, iso_text_of, parse_ymd, plain_date_text, printed_ymd, Date};
use crate::ledger::EntryView;
use crate::money::{amount_of, parse_amount};
use crate::text::{trim, trimmed};
use vstd::prelude::*;

verus! {

/// One labelled line of text.
#[derive(Debug, Clone, PartialEq, Eq)]
pub struct Field {
    pub label: &'static str,
    pub value: String,
}

/// The labels, the texts and the cursor of a form.
pub struct FormView {
    pub labels: Seq<Seq<char>>,
    pub values: Seq<Seq<char>>,
    pub index: int,
}

/// The labels of `fields`, in order.
pub open spec fn labels_of(fields: Seq<Field>) -> Seq<Seq<char>> {
    fields.map_values(|f: Field| f.label@)
}

/// The texts of `fields`, in order.
pub open spec fn values_of(fields: Seq<Field>) -> Seq<Seq<char>> {
    fields.map_values(|f: Field| f.value@)
}

/// Why a form was not accepted.
#[derive(Clone, Copy, Debug, PartialEq, Eq, Structural)]
pub enum FormError {
    DescriptionRequired,
    AmountRequired,
    AmountNotANumber,
    DateNotADate,
    CategoryRequired,
    LimitNotANumber,
}

/// What was read from a date field.
#[derive(Clone, Copy, Debug, PartialEq, Eq, Structural)]
pub enum DateEntry {
    /// Nothing was entered.
    Blank,
    /// What was entered is no date.
    Unreadable,
    /// The date that was entered.
    Day(Date),
}

/// A transaction that that its form accepted.
#[derive(Debug, Clone, PartialEq, Eq)]
pub struct NewTransaction {
    pub description: String,
    pub amount: i64,
    pub category: String,
    pub date: Date,
}

impl View for NewTransaction {
    type V = EntryView;

    open spec fn view(&self) -> EntryView {
        EntryView {
            description: self.description@,
            amount: self.amount,
            category: self.category@,
            date: self.date,
        }
    }
}

/// A budget that that its form accepted.
#[derive(Debug, Clone, PartialEq, Eq)]
pub struct NewBudget {
    pub category: String,
    pub monthly_limit: i64,
}

impl View for NewBudget {
    type V = (Seq<char>, i64);

    open spec fn view(&self) -> (Seq<char>, i64) {
        (self.category@, self.monthly_limit)
    }
}

/// The views of an outcome: of the value on success, the error as it is.
pub open spec fn outcome_view<T: View>(r: Result<T, FormError>) -> Result<T::V, FormError> {
    match r {
        Ok(v) => Ok(v@),
        Err(e) => Err(e),
    }
}

/// The category that an entry without one falls under.
pub open spec fn default_category() -> Seq<char> {
    "General"@
}

/// The text shown for an error.
pub open spec fn message_of(e: FormError) -> Seq<char> {
    match e {
        FormError::DescriptionRequired => "Description is required"@,
        FormError::AmountRequired => "Amount is required"@,
        FormError::AmountNotANumber => "Amount must be a number (use negative for income)"@,
        FormError::DateNotADate => "Date must be YYYY-MM-DD"@,
        FormError::CategoryRequired => "Category is required"@,
        FormError::LimitNotANumber => "Monthly limit must be a number (no $ sign)"@,
    }
}

/// What `chrono` reads from the trimmed text of a date field.
pub open spec fn date_entry_of(text: Seq<char>) -> DateEntry {
    if text.len() == 0 {
        DateEntry::Blank
    } else {
        match iso_date_of(text) {
            Some(day) => DateEntry::Day(day),
            None => DateEntry::Unreadable,
        }
    }
}

/// The outcome of a transaction form with the texts `values`, whose date
/// field was read as `entry`, on the day `today`. The description must not
/// be blank, the amount must be a number, a blank category is
/// [`default_category`], a blank date is `today`.
pub open spec fn validated_transaction(values: Seq<Seq<char>>, entry: DateEntry, today: Date) -> Result<
    EntryView,
    FormError,
> {
    let description = trimmed(values[0]);
    let amount = trimmed(values[1]);
    let category = trimmed(values[2]);
    if description.len() == 0 {
        Err(FormError::DescriptionRequired)
    } else if amount.len() == 0 {
        Err(FormError::AmountRequired)
    } else if amount_of(amount) is None {
        Err(FormError::AmountNotANumber)
    } else if entry is Unreadable {
        Err(FormError::DateNotADate)
    } else {
        Ok(
            EntryView {
                description,
                amount: amount_of(amount)->0,
                category: if category.len() == 0 {
                    default_category()
                } else {
                    category
                },
                date: match entry {
                    DateEntry::Day(day) => day,
                    _ => today,
                },
            },
        )
    }
}

/// The outcome of a transaction form with the texts `values` on the day
/// `today`.
pub open spec fn submitted_transaction(values: Seq<Seq<char>>, today: Date) -> Result<
    EntryView,
    FormError,
> {
    validated_transaction(values, date_entry_of(trimmed(values[3])), today)
}

/// The outcome of a budget form with the texts `values`. The category must
/// not be blank and the limit must be a number.
pub open spec fn submitted_budget(values: Seq<Seq<char>>) -> Result<(Seq<char>, i64), FormError> {
    let category = trimmed(values[0]);
    let limit = trimmed(values[1]);
    if category.len() == 0 {
        Err(FormError::CategoryRequired)
    } else if amount_of(limit) is None {
        Err(FormError::LimitNotANumber)
    } else {
        Ok((category, amount_of(limit)->0))
    }
}

/// A transaction form with a blank description is refused for that,
/// whatever the other fields hold.
pub proof fn lemma_blank_description_is_refused(values: Seq<Seq<char>>, today: Date)
    requires
        trimmed(values[0]).len() == 0,
    ensures
        submitted_transaction(values, today) == Err::<EntryView, FormError>(
            FormError::DescriptionRequired,
        ),
        forall|entry: DateEntry| #[trigger]
            validated_transaction(values, entry, today) == Err::<EntryView, FormError>(
                FormError::DescriptionRequired,
            ),
{
}

impl FormError {
    /// The text shown for the error.
    pub fn message(&self) -> (text: String)
        ensures
            text@ == message_of(*self),
    {
        match self {
            FormError::DescriptionRequired => "Description is required".to_owned(),
            FormError::AmountRequired => "Amount is required".to_owned(),
            FormError::AmountNotANumber => {
                "Amount must be a number (use negative for income)".to_owned()
            },
            FormError::DateNotADate => "Date must be YYYY-MM-DD".to_owned(),
            FormError::CategoryRequired => "Category is required".to_owned(),
            FormError::LimitNotANumber => "Monthly limit must be a number (no $ sign)".to_owned(),
        }
    }
}

/// The cursor after a step forward: one further, but not past the last of
/// `len` fields.
pub open spec fn stepped_forward(index: int, len: int) -> int {
    if index + 1 < len {
        index + 1
    } else {
        index
    }
}

/// The cursor after a step back: one earlier, but not before the first
/// field.
pub open spec fn stepped_back(index: int) -> int {
    if index > 0 {
        index - 1
    } else {
        index
    }
}

/// `text` without its last character, if it has one.
pub open spec fn without_last(text: Seq<char>) -> Seq<char> {
    if text.len() > 0 {
        text.drop_last()
    } else {
        text
    }
}

/// Reads the trimmed text of a date field.
pub fn read_date(text: &str) -> (entry: DateEntry)
    ensures
        entry == date_entry_of(text@),
        entry matches DateEntry::Day(day) ==> day.is_calendar_date(),
{
    if text.is_empty() {
        return DateEntry::Blank;
    }
    match parse_ymd(text) {
        Ok(day) => DateEntry::Day(day),
        Err(_) => DateEntry::Unreadable,
    }
}

/// The form for a new transaction: description, amount, category, date.
#[derive(Debug, Clone, PartialEq, Eq)]
pub struct TxForm {
    fields: Vec<Field>,
    index: usize,
}

impl View for TxForm {
    type V = FormView;

    closed spec fn view(&self) -> FormView {
        FormView {
            labels: labels_of(self.fields@),
            values: values_of(self.fields@),
            index: self.index as int,
        }
    }
}

/// Number of fields of a [`TxForm`].
pub const TX_FIELDS: usize = 4;

/// Number of fields of a [`BudgetForm`].
pub const BUDGET_FIELDS: usize = 2;

impl FormView {
    /// The form has `len` fields and its cursor is on one of them.
    pub open spec fn well_formed(self, len: int) -> bool {
        &&& self.labels.len() == len
        &&& self.values.len() == len
        &&& 0 <= self.index < len
    }

    /// The cursor is on the last field.
    pub open spec fn on_last(self) -> bool {
        self.index + 1 >= self.values.len()
    }

    /// The form with the cursor one field on; on the last field it stays.
    pub open spec fn forward(self) -> FormView {
        FormView {
            labels: self.labels,
            values: self.values,
            index: stepped_forward(self.index, self.values.len() as int),
        }
    }

    /// The form with the cursor one field back; on the first field it
    /// stays.
    pub open spec fn back(self) -> FormView {
        FormView { labels: self.labels, values: self.values, index: stepped_back(self.index) }
    }

    /// The form with `c` appended to the text under the cursor.
    pub open spec fn typed(self, c: char) -> FormView {
        FormView {
            labels: self.labels,
            values: self.values.update(self.index, self.values[self.index].push(c)),
            index: self.index,
        }
    }

    /// The form with the last character of the text under the cursor
    /// removed, if it has one.
    pub open spec fn erased(self) -> FormView {
        FormView {
            labels: self.labels,
            values: self.values.update(self.index, without_last(self.values[self.index])),
            index: self.index,
        }
    }
}

/// The labels of a new transaction form.
pub open spec fn tx_labels() -> Seq<Seq<char>> {
    seq!["Description"@, "Amount (+out / -in)"@, "Category"@, "Date (YYYY-MM-DD)"@]
}

/// The labels of a new budget form.
pub open spec fn budget_labels() -> Seq<Seq<char>> {
    seq!["Category"@, "Monthly limit"@]
}

/// The text that a new transaction form shows for the day `today`: as
/// `chrono` prints it, blank where it prints none.
pub open spec fn date_text_of(today: Date) -> Seq<char> {
    match iso_text_of(today) {
        Some(text) => text,
        None => Seq::empty(),
    }
}

impl TxForm {
    /// A form with blank description and amount, the default category and
    /// the day `today`, with the cursor on the description.
    pub fn new_on(today: Date) -> (form: TxForm)
        ensures
            form@.well_formed(TX_FIELDS as int),
            form@.labels == tx_labels(),
            form@.values == seq![
                Seq::<char>::empty(),
                Seq::<char>::empty(),
                default_category(),
                date_text_of(today),
            ],
            form@.index == 0,
            today.is_calendar_date() ==> iso_text_of(today) is Some,
            today.is_calendar_date() && 0 <= today.year <= 9999 ==> form@.values[3]
                == plain_date_text(today),
    {
        let date_text = match printed_ymd(today) {
            Some(text) => text,
            None => String::new(),
        };
        let mut fields: Vec<Field> = Vec::new();
        fields.push(Field { label: "Description", value: String::new() });
        fields.push(Field { label: "Amount (+out / -in)", value: String::new() });
        fields.push(Field { label: "Category", value: "General".to_owned() });
        fields.push(Field { label: "Date (YYYY-MM-DD)", value: date_text });
        let form = TxForm { fields, index: 0 };
        assert(form@.labels =~= tx_labels());
        assert(form@.values =~= seq![
            Seq::<char>::empty(),
            Seq::<char>::empty(),
            default_category(),
            date_text_of(today),
        ]);
        form
    }

    /// A form as [`TxForm::new_on`] makes it for the day that the local
    /// clock shows.
    pub fn new() -> (form: TxForm)
        ensures
            form@.well_formed(TX_FIELDS as int),
            form@.labels == tx_labels(),
            form@.index == 0,
            exists|today: Date|
                #[trigger] today.is_calendar_date() && iso_text_of(today) is Some && form@.values
                    == seq![
                    Seq::<char>::empty(),
                    Seq::<char>::empty(),
                    default_category(),
                    date_text_of(today),
                ],
    {
        TxForm::new_on(Date::today())
    }

    /// The fields, in order.
    pub fn fields(&self) -> (fields: &Vec<Field>)
        ensures
            labels_of(fields@) == self@.labels,
            values_of(fields@) == self@.values,
    {
        &self.fields
    }

    /// The index of the field under the cursor.
    pub fn index(&self) -> (index: usize)
        ensures
            index == self@.index,
    {
        self.index
    }

    /// The field under the cursor.
    pub fn current_mut(&mut self) -> (field: &mut Field)
        requires
            old(self)@.well_formed(TX_FIELDS as int),
        ensures
            field.label@ == old(self)@.labels[old(self)@.index],
            field.value@ == old(self)@.values[old(self)@.index],
            final(self)@.index == old(self)@.index,
            final(self)@.labels == old(self)@.labels.update(
                old(self)@.index,
                final(field).label@,
            ),
            final(self)@.values == old(self)@.values.update(
                old(self)@.index,
                final(field).value@,
            ),
    {
        &mut self.fields[self.index]
    }

    /// Moves the cursor one field on; on the last field it stays.
    pub fn next(&mut self)
        requires
            old(self)@.well_formed(TX_FIELDS as int),
        ensures
            final(self)@ == old(self)@.forward(),
            final(self)@.well_formed(TX_FIELDS as int),
    {
        if self.index + 1 < self.fields.len() {
            self.index += 1;
        }
    }

    /// Moves the cursor one field back; on the first field it stays.
    pub fn prev(&mut self)
        requires
            old(self)@.well_formed(TX_FIELDS as int),
        ensures
            final(self)@ == old(self)@.back(),
            final(self)@.well_formed(TX_FIELDS as int),
    {
        if self.index > 0 {
            self.index -= 1;
        }
    }

    /// Appends `c` to the text under the cursor.
    pub fn push_char(&mut self, c: char)
        requires
            old(self)@.well_formed(TX_FIELDS as int),
        ensures
            final(self)@ == old(self)@.typed(c),
            final(self)@.well_formed(TX_FIELDS as int),
    {
        self.current_mut().value.push(c);
        assert(self@.labels =~= old(self)@.labels);
    }

    /// Removes the last character of the text under the cursor, if it has
    /// one.
    pub fn backspace(&mut self)
        requires
            old(self)@.well_formed(TX_FIELDS as int),
        ensures
            final(self)@ == old(self)@.erased(),
            final(self)@.well_formed(TX_FIELDS as int),
    {
        self.current_mut().value.pop();
        assert(self@.labels =~= old(self)@.labels);
    }

    /// Validates the form with its date field read as `entry`, on the day
    /// `today`.
    pub fn validate(&self, entry: DateEntry, today: Date) -> (r: Result<NewTransaction, FormError>)
        requires
            self@.well_formed(TX_FIELDS as int),
        ensures
            outcome_view(r) == validated_transaction(self@.values, entry, today),
    {
        let description = trim(self.fields[0].value.as_str());
        let amount_text = trim(self.fields[1].value.as_str());
        let category = trim(self.fields[2].value.as_str());
        if description.is_empty() {
            return Err(FormError::DescriptionRequired);
        }
        if amount_text.is_empty() {
            return Err(FormError::AmountRequired);
        }
        let amount: i64 = match parse_amount(amount_text) {
            Some(amount) => amount,
            None => {
                return Err(FormError::AmountNotANumber);
            },
        };
        let date = match entry {
            DateEntry::Unreadable => {
                return Err(FormError::DateNotADate);
            },
            DateEntry::Day(day) => day,
            DateEntry::Blank => today,
        };
        let category = if category.is_empty() {
            "General".to_owned()
        } else {
            category.to_owned()
        };
        Ok(NewTransaction { description: description.to_owned(), amount, category, date })
    }

    /// Validates the form on the day `today`: reads the date field and
    /// goes on as [`TxForm::validate`].
    pub fn try_submit_on(&self, today: Date) -> (r: Result<NewTransaction, FormError>)
        requires
            self@.well_formed(TX_FIELDS as int),
        ensures
            outcome_view(r) == submitted_transaction(self@.values, today),
            trimmed(self@.values[0]).len() == 0 ==> r == Err::<NewTransaction, FormError>(
                FormError::DescriptionRequired,
            ),
    {
        let entry = read_date(trim(self.fields[3].value.as_str()));
        self.validate(entry, today)
    }

    /// Validates the form on the day that the local clock shows.
    pub fn try_submit(&self) -> (r: Result<NewTransaction, FormError>)
        requires
            self@.well_formed(TX_FIELDS as int),
        ensures
            exists|today: Date|
                #[trigger] today.is_calendar_date() && outcome_view(r) == submitted_transaction(
                    self@.values,
                    today,
                ),
            trimmed(self@.values[0]).len() == 0 ==> r == Err::<NewTransaction, FormError>(
                FormError::DescriptionRequired,
            ),
    {
        self.try_submit_on(Date::today())
    }
}

/// The form for a budget: category and monthly limit.
#[derive(Debug, Clone, PartialEq, Eq)]
pub struct BudgetForm {
    fields: Vec<Field>,
    index: usize,
}

impl View for BudgetForm {
    type V = FormView;

    closed spec fn view(&self) -> FormView {
        FormView {
            labels: labels_of(self.fields@),
            values: values_of(self.fields@),
            index: self.index as int,
        }
    }
}

impl BudgetForm {
    /// A form with the default category and a blank limit, with the cursor
    /// on the category.
    pub fn new() -> (form: BudgetForm)
        ensures
            form@.well_formed(BUDGET_FIELDS as int),
            form@.labels == budget_labels(),
            form@.values == seq![default_category(), Seq::<char>::empty()],
            form@.index == 0,
    {
        let mut fields: Vec<Field> = Vec::new();
        fields.push(Field { label: "Category", value: "General".to_owned() });
        fields.push(Field { label: "Monthly limit", value: String::new() });
        let form = BudgetForm { fields, index: 0 };
        assert(form@.labels =~= budget_labels());
        assert(form@.values =~= seq![default_category(), Seq::<char>::empty()]);
        form
    }

    /// The fields, in order.
    pub fn fields(&self) -> (fields: &Vec<Field>)
        ensures
            labels_of(fields@) == self@.labels,
            values_of(fields@) == self@.values,
    {
        &self.fields
    }

    /// The index of the field under the cursor.
    pub fn index(&self) -> (index: usize)
        ensures
            index == self@.index,
    {
        self.index
    }

    /// The field under the cursor.
    pub fn current_mut(&mut self) -> (field: &mut Field)
        requires
            old(self)@.well_formed(BUDGET_FIELDS as int),
        ensures
            field.label@ == old(self)@.labels[old(self)@.index],
            field.value@ == old(self)@.values[old(self)@.index],
            final(self)@.index == old(self)@.index,
            final(self)@.labels == old(self)@.labels.update(
                old(self)@.index,
                final(field).label@,
            ),
            final(self)@.values == old(self)@.values.update(
                old(self)@.index,
                final(field).value@,
            ),
    {
        &mut self.fields[self.index]
    }

    /// Moves the cursor one field on; on the last field it stays.
    pub fn next(&mut self)
        requires
            old(self)@.well_formed(BUDGET_FIELDS as int),
        ensures
            final(self)@ == old(self)@.forward(),
            final(self)@.well_formed(BUDGET_FIELDS as int),
    {
        if self.index + 1 < self.fields.len() {
            self.index += 1;
        }
    }

    /// Moves the cursor one field back; on the first field it stays.
    pub fn prev(&mut self)
        requires
            old(self)@.well_formed(BUDGET_FIELDS as int),
        ensures
            final(self)@ == old(self)@.back(),
            final(self)@.well_formed(BUDGET_FIELDS as int),
    {
        if self.index > 0 {
            self.index -= 1;
        }
    }

    /// Appends `c` to the text under the cursor.
    pub fn push_char(&mut self, c: char)
        requires
            old(self)@.well_formed(BUDGET_FIELDS as int),
        ensures
            final(self)@ == old(self)@.typed(c),
            final(self)@.well_formed(BUDGET_FIELDS as int),
    {
        self.current_mut().value.push(c);
        assert(self@.labels =~= old(self)@.labels);
    }

    /// Removes the last character of the text under the cursor, if it has
    /// one.
    pub fn backspace(&mut self)
        requires
            old(self)@.well_formed(BUDGET_FIELDS as int),
        ensures
            final(self)@ == old(self)@.erased(),
            final(self)@.well_formed(BUDGET_FIELDS as int),
    {
        self.current_mut().value.pop();
        assert(self@.labels =~= old(self)@.labels);
    }

    /// Validates the form.
    pub fn try_submit(&self) -> (r: Result<NewBudget, FormError>)
        requires
            self@.well_formed(BUDGET_FIELDS as int),
        ensures
            outcome_view(r) == submitted_budget(self@.values),
    {
        let category = trim(self.fields[0].value.as_str());
        let limit = trim(self.fields[1].value.as_str());
        if category.is_empty() {
            return Err(FormError::CategoryRequired);
        }
        match parse_amount(limit) {
            Some(monthly_limit) => Ok(NewBudget { category: category.to_owned(), monthly_limit }),
            None => Err(FormError::LimitNotANumber),
        }
    }
}

} // verus!
