//! Human-readable reports rendered from the ingested DuckDB. Each report
//! kind is its own submodule; this module picks the one to run.
use vstd::prelude::*;

use crate::cli::{ReportArgs, ReportKind};

pub mod usage;

verus! {

/// The report to render for `cct report`: the chosen kind, with its
/// arguments, for the binary to carry out against the database.
pub fn run(args: ReportArgs) -> (job: ReportKind)
    ensures
        job == args.kind,
{
    match args.kind {
        ReportKind::Usage(a) => ReportKind::Usage(a),
    }
}

} // verus!
