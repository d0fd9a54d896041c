//! A small SQL-like engine over comma-separated tables.
//!
//! Statement text is parsed into typed statements (`query_identifier`),
//! WHERE predicates are evaluated against rows (`condiciones`), result rows
//! are sorted by ORDER BY keys with a stable sort (`orden`), and the four
//! statement kinds are executed against an in-memory table (`ejecutor`).
//! Reading and writing the table files is left to the caller.

pub mod cadenas;
pub mod condiciones;
pub mod ejecutor;
pub mod errors;
pub mod orden;
pub mod query_identifier;
