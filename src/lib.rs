//! A personal finance ledger: income and expense entries grouped by
//! category, with verified totals, per-category aggregation, a bulk
//! amount transform and the decisions behind loading and saving.
pub mod amount;
pub mod entry;
pub mod ledger;
pub mod persist;
pub mod totals;
pub mod transform;
