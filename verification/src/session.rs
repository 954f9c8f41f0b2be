//! One session with the ledger: which tab is shown, which form is open,
//! and what each key does.
//!
//! The session decides; saving and reloading are left to the caller, who
//! is told through an [`Effect`] what to do next and reports how it went:
//! through [`Session::saved`] or [`Session::save_failed`], and through
//! [`Session::reloaded`] or [`Session::reload_failed`]. A failure is shown
//! as a message and the session goes on.

use crate::date::Date;
use crate::form::{
    message_of, submitted_budget, submitted_transaction, BudgetForm, FormView, TxForm,
    BUDGET_FIELDS, TX_FIELDS,
};
use crate::ledger::{Ledger, LedgerView};
use vstd::prelude::*;
use vstd::string::StringExecFns;

verus! {

/// Index of the last tab.
pub const LAST_TAB: usize = 2;

/// A key, as far as the session tells keys apart.
#[derive(Clone, Copy, Debug, PartialEq, Eq, Structural)]
pub enum Key {
    Esc,
    Tab,
    BackTab,
    Enter,
    Backspace,
    Left,
    Right,
    Char(char),
    Other,
}

/// A key with the state of the control modifier.
#[derive(Clone, Copy, Debug, PartialEq, Eq, Structural)]
pub struct KeyPress {
    pub key: Key,
    pub control: bool,
}

/// What the caller has to do after a key.
#[derive(Clone, Copy, Debug, PartialEq, Eq, Structural)]
pub enum Effect {
    /// Nothing.
    Nothing,
    /// End the session.
    Quit,
    /// Save the ledger, then call [`Session::saved`] or
    /// [`Session::save_failed`].
    Save,
    /// Load the ledger again, then call [`Session::reloaded`] or
    /// [`Session::reload_failed`].
    Reload,
}

/// The form that is open, if any.
#[derive(Debug, Clone, PartialEq, Eq)]
pub enum ActiveForm {
    Idle,
    Transaction(TxForm),
    Budget(BudgetForm),
}

/// An [`ActiveForm`] as the view of its form.
pub enum ActiveFormView {
    Idle,
    Transaction(FormView),
    Budget(FormView),
}

impl View for ActiveForm {
    type V = ActiveFormView;

    open spec fn view(&self) -> ActiveFormView {
        match self {
            ActiveForm::Idle => ActiveFormView::Idle,
            ActiveForm::Transaction(form) => ActiveFormView::Transaction(form@),
            ActiveForm::Budget(form) => ActiveFormView::Budget(form@),
        }
    }
}

/// The state of one session.
#[derive(Debug, Clone, PartialEq, Eq)]
pub struct Session {
    pub ledger: Ledger,
    pub active_tab: usize,
    pub form: ActiveForm,
    pub show_suggestions: bool,
    pub last_message: String,
    pub saved_recently: bool,
}

/// A [`Session`] as views.
pub struct SessionView {
    pub ledger: LedgerView,
    pub active_tab: usize,
    pub form: ActiveFormView,
    pub show_suggestions: bool,
    pub last_message: Seq<char>,
    pub saved_recently: bool,
}

impl View for Session {
    type V = SessionView;

    open spec fn view(&self) -> SessionView {
        SessionView {
            ledger: self.ledger@,
            active_tab: self.active_tab,
            form: self.form@,
            show_suggestions: self.show_suggestions,
            last_message: self.last_message@,
            saved_recently: self.saved_recently,
        }
    }
}

impl SessionView {
    /// An open form has its fields and its cursor on one of them.
    pub open spec fn well_formed(self) -> bool {
        match self.form {
            ActiveFormView::Idle => true,
            ActiveFormView::Transaction(form) => form.well_formed(TX_FIELDS as int),
            ActiveFormView::Budget(form) => form.well_formed(BUDGET_FIELDS as int),
        }
    }

    /// `key` draws no identifier, or the counter that it draws on can
    /// still hand one out. Only Enter on the last field of a form draws
    /// one.
    pub open spec fn has_room_for(self, key: Key) -> bool {
        match self.form {
            ActiveFormView::Idle => true,
            ActiveFormView::Transaction(form) => key == Key::Enter && form.on_last()
                ==> self.ledger.next_tx_id < u64::MAX,
            ActiveFormView::Budget(form) => key == Key::Enter && form.on_last()
                ==> self.ledger.next_budget_id < u64::MAX,
        }
    }

    /// The session with another form, or none.
    pub open spec fn with_form(self, form: ActiveFormView) -> SessionView {
        SessionView {
            ledger: self.ledger,
            active_tab: self.active_tab,
            form,
            show_suggestions: self.show_suggestions,
            last_message: self.last_message,
            saved_recently: self.saved_recently,
        }
    }

    /// The session with another message.
    pub open spec fn with_message(self, message: Seq<char>) -> SessionView {
        SessionView {
            ledger: self.ledger,
            active_tab: self.active_tab,
            form: self.form,
            show_suggestions: self.show_suggestions,
            last_message: message,
            saved_recently: self.saved_recently,
        }
    }

    /// The session with another ledger.
    pub open spec fn with_ledger(self, ledger: LedgerView) -> SessionView {
        SessionView {
            ledger,
            active_tab: self.active_tab,
            form: self.form,
            show_suggestions: self.show_suggestions,
            last_message: self.last_message,
            saved_recently: self.saved_recently,
        }
    }

    /// The session with another tab.
    pub open spec fn with_tab(self, active_tab: usize) -> SessionView {
        SessionView {
            ledger: self.ledger,
            active_tab,
            form: self.form,
            show_suggestions: self.show_suggestions,
            last_message: self.last_message,
            saved_recently: self.saved_recently,
        }
    }

    /// The session with the suggestions shown or hidden.
    pub open spec fn with_suggestions(self, show_suggestions: bool) -> SessionView {
        SessionView {
            ledger: self.ledger,
            active_tab: self.active_tab,
            form: self.form,
            show_suggestions,
            last_message: self.last_message,
            saved_recently: self.saved_recently,
        }
    }

    /// The session after the open form is given up: no form, the ledger as
    /// it was.
    pub open spec fn cancelled(self, message: Seq<char>) -> SessionView {
        self.with_form(ActiveFormView::Idle).with_message(message)
    }

    /// What a key does while the transaction form `form` is open, on the
    /// day `today`.
    pub open spec fn after_key_in_transaction(self, form: FormView, key: Key, today: Date) -> (
        SessionView,
        Effect,
    ) {
        match key {
            Key::Esc => (self.cancelled("Cancelled transaction"@), Effect::Nothing),
            Key::Tab | Key::Right => (
                self.with_form(ActiveFormView::Transaction(form.forward())),
                Effect::Nothing,
            ),
            Key::BackTab | Key::Left => (
                self.with_form(ActiveFormView::Transaction(form.back())),
                Effect::Nothing,
            ),
            Key::Backspace => (
                self.with_form(ActiveFormView::Transaction(form.erased())),
                Effect::Nothing,
            ),
            Key::Char(c) => (
                self.with_form(ActiveFormView::Transaction(form.typed(c))),
                Effect::Nothing,
            ),
            Key::Enter => if !form.on_last() {
                (self.with_form(ActiveFormView::Transaction(form.forward())), Effect::Nothing)
            } else {
                match submitted_transaction(form.values, today) {
                    Ok(entry) => (
                        self.with_ledger(
                            self.ledger.with_transaction(
                                entry.description,
                                entry.amount,
                                entry.category,
                                entry.date,
                            ),
                        ).cancelled("Transaction added"@),
                        Effect::Save,
                    ),
                    Err(e) => (self.with_message(message_of(e)), Effect::Nothing),
                }
            },
            Key::Other => (self, Effect::Nothing),
        }
    }

    /// What a key does while the budget form `form` is open.
    pub open spec fn after_key_in_budget(self, form: FormView, key: Key) -> (SessionView, Effect) {
        match key {
            Key::Esc => (self.cancelled("Cancelled budget edit"@), Effect::Nothing),
            Key::Tab | Key::Right => (
                self.with_form(ActiveFormView::Budget(form.forward())),
                Effect::Nothing,
            ),
            Key::BackTab | Key::Left => (
                self.with_form(ActiveFormView::Budget(form.back())),
                Effect::Nothing,
            ),
            Key::Backspace => (
                self.with_form(ActiveFormView::Budget(form.erased())),
                Effect::Nothing,
            ),
            Key::Char(c) => (self.with_form(ActiveFormView::Budget(form.typed(c))), Effect::Nothing),
            Key::Enter => if !form.on_last() {
                (self.with_form(ActiveFormView::Budget(form.forward())), Effect::Nothing)
            } else {
                match submitted_budget(form.values) {
                    Ok(entry) => (
                        self.with_ledger(self.ledger.with_budget(entry.0, entry.1)).cancelled(
                            "Budget saved"@,
                        ),
                        Effect::Save,
                    ),
                    Err(e) => (self.with_message(message_of(e)), Effect::Nothing),
                }
            },
            Key::Other => (self, Effect::Nothing),
        }
    }

    /// What a key does while no form is open; `tx_form` is the form that
    /// opens for a new transaction.
    pub open spec fn after_key_when_idle(self, press: KeyPress, tx_form: FormView) -> (
        SessionView,
        Effect,
    ) {
        match press.key {
            Key::Char(c) => if c == 'q' {
                (self, Effect::Quit)
            } else if c == 'h' {
                (
                    self.with_tab(
                        if self.active_tab > 0 {
                            (self.active_tab - 1) as usize
                        } else {
                            self.active_tab
                        },
                    ),
                    Effect::Nothing,
                )
            } else if c == 'l' {
                (
                    self.with_tab(
                        if self.active_tab < LAST_TAB {
                            (self.active_tab + 1) as usize
                        } else {
                            self.active_tab
                        },
                    ),
                    Effect::Nothing,
                )
            } else if c == 'a' {
                (self.with_form(ActiveFormView::Transaction(tx_form)), Effect::Nothing)
            } else if c == 'b' {
                (
                    self.with_form(
                        ActiveFormView::Budget(
                            FormView {
                                labels: crate::form::budget_labels(),
                                values: seq![
                                    crate::form::default_category(),
                                    Seq::<char>::empty(),
                                ],
                                index: 0,
                            },
                        ),
                    ),
                    Effect::Nothing,
                )
            } else if c == 's' {
                (self, Effect::Save)
            } else if c == 'g' {
                (self.with_suggestions(!self.show_suggestions), Effect::Nothing)
            } else if c == 'r' {
                (self, Effect::Reload)
            } else if c == 'c' && press.control {
                (self, Effect::Quit)
            } else {
                (self, Effect::Nothing)
            },
            _ => (self, Effect::Nothing),
        }
    }

    /// What a key does on the day `today`.
    pub open spec fn after_key(self, press: KeyPress, today: Date) -> (SessionView, Effect) {
        match self.form {
            ActiveFormView::Transaction(form) => self.after_key_in_transaction(
                form,
                press.key,
                today,
            ),
            ActiveFormView::Budget(form) => self.after_key_in_budget(form, press.key),
            ActiveFormView::Idle => self.after_key_when_idle(
                press,
                FormView {
                    labels: crate::form::tx_labels(),
                    values: seq![
                        Seq::<char>::empty(),
                        Seq::<char>::empty(),
                        crate::form::default_category(),
                        crate::form::date_text_of(today),
                    ],
                    index: 0,
                },
            ),
        }
    }
}

/// `key` is Enter on the last field of an open form whose texts are
/// accepted on the day `today`.
pub open spec fn submits(s: SessionView, key: Key, today: Date) -> bool {
    key == Key::Enter && (match s.form {
        ActiveFormView::Transaction(form) => form.on_last() && submitted_transaction(
            form.values,
            today,
        ) is Ok,
        ActiveFormView::Budget(form) => form.on_last() && submitted_budget(form.values) is Ok,
        ActiveFormView::Idle => false,
    })
}

/// Giving up an open form closes it and leaves the ledger as it was,
/// wherever the cursor stands and whatever was entered.
pub proof fn lemma_cancel_discards(s: SessionView, control: bool, today: Date)
    requires
        !(s.form is Idle),
    ensures
        s.after_key(KeyPress { key: Key::Esc, control }, today).0.form is Idle,
        s.after_key(KeyPress { key: Key::Esc, control }, today).0.ledger == s.ledger,
        s.after_key(KeyPress { key: Key::Esc, control }, today).1 == Effect::Nothing,
{
}

/// A key never changes the ledger unless it submits a form from its last
/// field; only then it asks for a save while a form is open.
pub proof fn lemma_only_submission_changes_ledger(s: SessionView, press: KeyPress, today: Date)
    ensures
        s.after_key(press, today).0.ledger != s.ledger ==> submits(s, press.key, today),
        !(s.form is Idle) ==> (s.after_key(press, today).1 == Effect::Save <==> submits(
            s,
            press.key,
            today,
        )),
{
}

/// While a form is open no key ends the session or loads the ledger
/// again: every key is text or moves within the form.
pub proof fn lemma_form_keeps_the_session(s: SessionView, press: KeyPress, today: Date)
    requires
        !(s.form is Idle),
    ensures
        s.after_key(press, today).1 != Effect::Quit,
        s.after_key(press, today).1 != Effect::Reload,
{
}

impl Session {
    /// A session on `ledger`: first tab, no form, suggestions shown.
    pub fn new(ledger: Ledger) -> (session: Session)
        ensures
            session@.ledger == ledger@,
            session@.active_tab == 0,
            session@.form is Idle,
            session@.show_suggestions,
            session@.last_message == "Loaded data"@,
            !session@.saved_recently,
            session@.well_formed(),
    {
        Session {
            ledger,
            active_tab: 0,
            form: ActiveForm::Idle,
            show_suggestions: true,
            last_message: "Loaded data".to_owned(),
            saved_recently: false,
        }
    }

    /// Takes one key on the day `today` and says what the caller has to do.
    pub fn handle_key_on(&mut self, press: KeyPress, today: Date) -> (effect: Effect)
        requires
            old(self)@.well_formed(),
            old(self)@.has_room_for(press.key),
        ensures
            (final(self)@, effect) == old(self)@.after_key(press, today),
            final(self)@.well_formed(),
    {
        let mut open = ActiveForm::Idle;
        std::mem::swap(&mut self.form, &mut open);
        match open {
            ActiveForm::Transaction(mut form) => {
                let submit: bool = form.index() + 1 >= TX_FIELDS;
                match press.key {
                    Key::Esc => {
                        self.last_message = "Cancelled transaction".to_owned();
                        Effect::Nothing
                    },
                    Key::Tab | Key::Right => {
                        form.next();
                        self.form = ActiveForm::Transaction(form);
                        Effect::Nothing
                    },
                    Key::BackTab | Key::Left => {
                        form.prev();
                        self.form = ActiveForm::Transaction(form);
                        Effect::Nothing
                    },
                    Key::Backspace => {
                        form.backspace();
                        self.form = ActiveForm::Transaction(form);
                        Effect::Nothing
                    },
                    Key::Char(c) => {
                        form.push_char(c);
                        self.form = ActiveForm::Transaction(form);
                        Effect::Nothing
                    },
                    Key::Enter => {
                        if !submit {
                            form.next();
                            self.form = ActiveForm::Transaction(form);
                            Effect::Nothing
                        } else {
                            match form.try_submit_on(today) {
                                Ok(entry) => {
                                    self.ledger.add_transaction(
                                        entry.description.as_str(),
                                        entry.amount,
                                        entry.category.as_str(),
                                        entry.date,
                                    );
                                    self.last_message = "Transaction added".to_owned();
                                    Effect::Save
                                },
                                Err(e) => {
                                    self.last_message = e.message();
                                    self.form = ActiveForm::Transaction(form);
                                    Effect::Nothing
                                },
                            }
                        }
                    },
                    Key::Other => {
                        self.form = ActiveForm::Transaction(form);
                        Effect::Nothing
                    },
                }
            },
            ActiveForm::Budget(mut form) => {
                let submit: bool = form.index() + 1 >= BUDGET_FIELDS;
                match press.key {
                    Key::Esc => {
                        self.last_message = "Cancelled budget edit".to_owned();
                        Effect::Nothing
                    },
                    Key::Tab | Key::Right => {
                        form.next();
                        self.form = ActiveForm::Budget(form);
                        Effect::Nothing
                    },
                    Key::BackTab | Key::Left => {
                        form.prev();
                        self.form = ActiveForm::Budget(form);
                        Effect::Nothing
                    },
                    Key::Backspace => {
                        form.backspace();
                        self.form = ActiveForm::Budget(form);
                        Effect::Nothing
                    },
                    Key::Char(c) => {
                        form.push_char(c);
                        self.form = ActiveForm::Budget(form);
                        Effect::Nothing
                    },
                    Key::Enter => {
                        if !submit {
                            form.next();
                            self.form = ActiveForm::Budget(form);
                            Effect::Nothing
                        } else {
                            match form.try_submit() {
                                Ok(entry) => {
                                    self.ledger.add_or_update_budget(
                                        entry.category.as_str(),
                                        entry.monthly_limit,
                                    );
                                    self.last_message = "Budget saved".to_owned();
                                    Effect::Save
                                },
                                Err(e) => {
                                    self.last_message = e.message();
                                    self.form = ActiveForm::Budget(form);
                                    Effect::Nothing
                                },
                            }
                        }
                    },
                    Key::Other => {
                        self.form = ActiveForm::Budget(form);
                        Effect::Nothing
                    },
                }
            },
            ActiveForm::Idle => {
                match press.key {
                    Key::Char(c) => {
                        if c == 'q' {
                            Effect::Quit
                        } else if c == 'h' {
                            if self.active_tab > 0 {
                                self.active_tab -= 1;
                            }
                            Effect::Nothing
                        } else if c == 'l' {
                            if self.active_tab < LAST_TAB {
                                self.active_tab += 1;
                            }
                            Effect::Nothing
                        } else if c == 'a' {
                            self.form = ActiveForm::Transaction(TxForm::new_on(today));
                            Effect::Nothing
                        } else if c == 'b' {
                            self.form = ActiveForm::Budget(BudgetForm::new());
                            Effect::Nothing
                        } else if c == 's' {
                            Effect::Save
                        } else if c == 'g' {
                            self.show_suggestions = !self.show_suggestions;
                            Effect::Nothing
                        } else if c == 'r' {
                            Effect::Reload
                        } else if c == 'c' && press.control {
                            Effect::Quit
                        } else {
                            Effect::Nothing
                        }
                    },
                    _ => Effect::Nothing,
                }
            },
        }
    }

    /// Takes one key on the day that the local clock shows.
    pub fn handle_key(&mut self, press: KeyPress) -> (effect: Effect)
        requires
            old(self)@.well_formed(),
            old(self)@.has_room_for(press.key),
        ensures
            exists|today: Date|
                #[trigger] today.is_calendar_date() && (final(self)@, effect) == old(
                    self,
                )@.after_key(press, today),
            final(self)@.well_formed(),
    {
        self.handle_key_on(press, Date::today())
    }

    /// Notes that the ledger was saved at `location`.
    pub fn saved(&mut self, location: &str)
        ensures
            final(self)@ == (SessionView {
                last_message: "Saved to "@ + location@,
                saved_recently: true,
                ..old(self)@
            }),
    {
        self.saved_recently = true;
        self.last_message = "Saved to ".to_owned().concat(location);
    }

    /// Notes that the ledger could not be saved, for the reason given: the
    /// reason is shown, and the ledger stays as it is in memory.
    pub fn save_failed(&mut self, reason: &str)
        ensures
            final(self)@ == old(self)@.with_message(reason@),
    {
        self.last_message = reason.to_owned();
    }

    /// Notes that the ledger could not be loaded again, for the reason
    /// given: the reason is shown, and the present ledger stays.
    pub fn reload_failed(&mut self, reason: &str)
        ensures
            final(self)@ == old(self)@.with_message(reason@),
    {
        self.last_message = reason.to_owned();
    }

    /// Takes the ledger that was loaded in place of the present one.
    pub fn reloaded(&mut self, ledger: Ledger)
        ensures
            final(self)@ == (SessionView {
                ledger: ledger@,
                last_message: "Reloaded data"@,
                ..old(self)@
            }),
    {
        self.ledger = ledger;
        self.last_message = "Reloaded data".to_owned();
    }
}

} // verus!
