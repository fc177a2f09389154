//! A transaction-simulation engine for systematic investment strategies:
//! date-aligned nav series, a day-by-day simulation cursor with optional
//! history log and ledgers, a date-wise ledger merge, and the internal rate
//! of return solved in exact fixed-point arithmetic.

pub mod data;
pub mod date;
pub mod numeric;
pub mod record;
pub mod transaction;
pub mod utility;

pub use data::{Data, Fund, Stock};
pub use date::{Date, Weekday};
pub use record::{ConciseRecord, DetailedRecord, Record};
pub use transaction::{Transaction, TransactionIterator};
pub use utility::{DAYS_PER_YEAR, FIXED_SCALE, SIDE};
