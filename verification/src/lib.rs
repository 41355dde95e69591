//! Verified core of a tool that turns broker statements into the figures
//! German tax forms ask for.

pub mod text;
pub mod error;
pub mod date;
pub mod groups;
pub mod csv_input;
pub mod statement;
pub mod parser;
pub mod fx;
pub mod instruments;
pub mod history;
pub mod fifo;
pub mod asset_events;
pub mod keyed;
pub mod quellensteuer;
pub mod vorabpauschale;
pub mod dividends;
pub mod settings;
pub mod report;
pub mod kontoauszug;
pub mod cash;
