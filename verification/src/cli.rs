//! Command-line surface of `cct`: the arguments of every subcommand, and the
//! fallback directories the defaults are built from. Flag parsing itself is
//! done by the binary; these are the values it hands over.
use std::path::PathBuf;

use vstd::prelude::*;

verus! {

/// `std::path::PathBuf`, carried through unchanged.
#[verifier::external_type_specification]
#[verifier::external_body]
pub struct ExPathBuf(PathBuf);

/// Top-level command line: one subcommand.
#[derive(Debug)]
pub struct Cli {
    pub command: Command,
}

/// The subcommands of `cct`.
#[derive(Debug)]
pub enum Command {
    /// Ingest JSONL session transcripts into a DuckDB database
    Ingest(IngestArgs),
    /// Serve the transcript viewer web UI
    Serve(ServeArgs),
    /// Show DB path, size, and entry counts
    Info(InfoArgs),
    /// Update cct to the latest GitHub release (or a specific version)
    Update(UpdateArgs),
    /// Render a human-readable report from the DB
    Report(ReportArgs),
    /// Dump structured JSON for downstream tooling
    Extract(ExtractArgs),
}

/// Arguments of `cct ingest`.
#[derive(Debug)]
pub struct IngestArgs {
    /// Input directory to scan recursively for .jsonl files.
    pub input_dir: PathBuf,
    /// Worker thread count. 0 = number of logical CPUs.
    pub jobs: usize,
    /// Output DuckDB filename. Overwritten on every run.
    pub output: PathBuf,
    /// TOML file overriding/extending the seeded model_pricing table.
    pub pricing: Option<PathBuf>,
    /// Disable per-second progress reporting on stderr.
    pub no_progress: bool,
}

/// Arguments of `cct serve`.
#[derive(Debug)]
pub struct ServeArgs {
    /// DuckDB database file to serve.
    pub db: PathBuf,
    /// Port to listen on.
    pub port: u16,
    /// Window (days) for the cost-decomposition flamegraph.
    pub decomp_days: i32,
}

/// Arguments of `cct info`.
#[derive(Debug)]
pub struct InfoArgs {
    /// DuckDB database file to inspect.
    pub db: PathBuf,
}

/// Arguments of `cct update`.
#[derive(Debug)]
pub struct UpdateArgs {
    /// Specific release version to install. Defaults to latest.
    pub version: Option<String>,
    /// Skip the interactive confirmation prompt.
    pub yes: bool,
}

/// Arguments of `cct report`.
#[derive(Debug)]
pub struct ReportArgs {
    pub kind: ReportKind,
}

/// The report kinds.
#[derive(Debug)]
pub enum ReportKind {
    /// API token usage and cost breakdown by model
    Usage(UsageArgs),
}

/// Arguments of `cct report usage`.
#[derive(Debug)]
pub struct UsageArgs {
    /// DuckDB database file to query.
    pub db: PathBuf,
    /// Project directory to filter on. Defaults to the current working directory.
    pub project: Option<PathBuf>,
    /// Scan all projects (overrides --project and --no-subdirs).
    pub all: bool,
    /// Match only the project's exact cwd (skip worktrees / subdirectory cwds).
    pub no_subdirs: bool,
    /// Include events on or after this date (YYYY-MM-DD, UTC).
    pub from: Option<String>,
    /// Include events on or before this date (YYYY-MM-DD, UTC, inclusive).
    pub to: Option<String>,
    /// Emit machine-readable JSON instead of formatted text.
    pub json: bool,
}

/// Arguments of `cct extract`.
#[derive(Debug)]
pub struct ExtractArgs {
    pub kind: ExtractKind,
}

/// The extract kinds.
#[derive(Debug)]
pub enum ExtractKind {
    /// Per-turn session metadata (tools, skills, errors, tokens, subagents)
    Sessions(ExtractSessionsArgs),
}

/// Arguments of `cct extract sessions`.
#[derive(Debug)]
pub struct ExtractSessionsArgs {
    /// DuckDB database file to query.
    pub db: PathBuf,
    /// Project directory to filter on. Defaults to the current working directory.
    pub project: Option<PathBuf>,
    /// Scan all projects (overrides --project and --no-subdirs).
    pub all: bool,
    /// Match only the project's exact cwd (skip worktrees / subdirectory cwds).
    pub no_subdirs: bool,
    /// Filter to a specific session id (or unique prefix).
    pub session: Option<String>,
    /// Include sessions starting on or after this date (YYYY-MM-DD, UTC).
    pub from: Option<String>,
    /// Include sessions starting on or before this date (YYYY-MM-DD, UTC, inclusive).
    pub to: Option<String>,
}

/// The home directory the defaults live under: `$HOME`, else
/// `$USERPROFILE`, else the current directory `.`.
pub fn home_or_default(home: Option<String>, userprofile: Option<String>) -> (r: String)
    ensures
        r@ == (match home {
            Some(h) => h@,
            None => match userprofile {
                Some(u) => u@,
                None => "."@,
            },
        }),
{
    match home {
        Some(h) => h,
        None => match userprofile {
            Some(u) => u,
            None => String::from_str("."),
        },
    }
}

/// `$XDG_DATA_HOME` when it is set and not empty; otherwise the data
/// directory falls back to `<home>/.local/share`.
pub fn xdg_data_home(xdg: Option<String>) -> (r: Option<String>)
    ensures
        r == (match xdg {
            Some(x) => if x@.len() > 0 {
                Some(x)
            } else {
                None
            },
            None => None,
        }),
{
    match xdg {
        Some(x) => if x.as_str().is_empty() {
            None
        } else {
            Some(x)
        },
        None => None,
    }
}

} // verus!
