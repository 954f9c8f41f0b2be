//! A personal finance ledger: transactions, per-category monthly budgets and
//! the summaries derived from them, together with the entry forms that feed
//! the ledger. Amounts are signed integers counted in hundredths of the
//! currency unit; a positive amount is money leaving, a negative one is income.

pub mod date;
pub mod order;
pub mod text;
pub mod money;
pub mod ledger;
pub mod window;
pub mod summary;
pub mod usage;
pub mod spending;
pub mod suggest;
pub mod cashflow;
pub mod form;
pub mod session;
pub mod sample;
pub mod storage;
