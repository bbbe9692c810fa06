//! Verified core of the `cct` session-transcript tools: the query scoping,
//! report arithmetic and text, session grouping, the cost flame graph, and
//! the calendar and string order they rest on. Database access, the clock,
//! dollar amounts and output live in the binary, which hands plain values to
//! this library.
pub mod calendar;
pub mod cli;
pub mod cost_decomp;
pub mod extract;
pub mod order;
pub mod report;
pub mod scope;
pub mod text;
pub mod transcript;
