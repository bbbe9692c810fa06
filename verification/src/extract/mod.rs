//! Structured JSON extraction from the ingested DuckDB. Each kind is its own
//! submodule; this module picks the one to run.
use vstd::prelude::*;

use crate::cli::{ExtractArgs, ExtractKind};

pub mod sessions;
pub mod turns;

verus! {

/// The extraction to perform for `cct extract`: the chosen kind, with its
/// arguments, for the binary to carry out against the database.
pub fn run(args: ExtractArgs) -> (job: ExtractKind)
    ensures
        job == args.kind,
{
    match args.kind {
        ExtractKind::Sessions(a) => ExtractKind::Sessions(a),
    }
}

} // verus!
