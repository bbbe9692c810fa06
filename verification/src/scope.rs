//! Shared scope (cwd + date) filter for the `report` and `extract`
//! subcommands: the same `--project / --all / --no-subdirs / --from / --to`
//! flags become the same predicate on `entries.cwd` and `entries.timestamp`.
use vstd::prelude::*;

use crate::text::{
    chars_of, decimal, pad_zeros, parse_unsigned, parse_unsigned_chars, push_str_chars, split_chars,
    split_on, string_from_chars, zero_padded, count_char, lemma_count_char_concat, escape_like,
    like_escape,
};

verus! {

/// Resolved scope ready to be folded into a SQL `WHERE` clause.
///
/// `cwd_exact` is the canonical project directory (or `None` for `--all`);
/// `match_subdirs` is true when worktree / subdir cwds (`<exact>/...`) should
/// also match; the directory is matched literally, `%` and `_` in it
/// included. `to_iso` is inclusive: a `--to` date expands to end of day.
#[derive(Debug, Clone)]
pub struct Scope {
    pub cwd_exact: Option<String>,
    pub match_subdirs: bool,
    pub from_iso: Option<String>,
    pub to_iso: Option<String>,
}

/// The `YYYY-MM-DD HH:MM:SS` timestamp text for a parsed date, at the start
/// or (inclusive) end of the day.
pub open spec fn date_text(y: nat, m: nat, d: nat, end_of_day: bool) -> Seq<char> {
    pad_zeros(decimal(y), 4) + seq!['-'] + pad_zeros(decimal(m), 2) + seq!['-'] + pad_zeros(
        decimal(d),
        2,
    ) + seq![' '] + if end_of_day {
        "23:59:59"@
    } else {
        "00:00:00"@
    }
}

/// What `parse_date` gives for the text `s`: three `-`-separated pieces, a
/// year that fits an `i32` and a month and day that fit a `u32` (std integer
/// parsing; the pieces never hold a `-`), then month 1..=12 and day 1..=31.
/// Each failure has its own message, checked in that order.
pub open spec fn parse_date_spec(s: Seq<char>, end_of_day: bool) -> Result<Seq<char>, Seq<char>> {
    let parts = split_on(s, '-');
    if parts.len() != 3 {
        Err("invalid date '"@ + s + "', expected YYYY-MM-DD"@)
    } else if parse_unsigned(parts[0], i32::MAX as nat) is None {
        Err("invalid year in '"@ + s + "'"@)
    } else if parse_unsigned(parts[1], u32::MAX as nat) is None {
        Err("invalid month in '"@ + s + "'"@)
    } else if parse_unsigned(parts[2], u32::MAX as nat) is None {
        Err("invalid day in '"@ + s + "'"@)
    } else {
        let y = parse_unsigned(parts[0], i32::MAX as nat)->0;
        let m = parse_unsigned(parts[1], u32::MAX as nat)->0;
        let d = parse_unsigned(parts[2], u32::MAX as nat)->0;
        if !(1 <= m <= 12) || !(1 <= d <= 31) {
            Err("invalid month/day in '"@ + s + "'"@)
        } else {
            Ok(date_text(y, m, d, end_of_day))
        }
    }
}

/// The message `"<prefix><s><suffix>"` as a `String`.
fn quoted_message(prefix: &str, s: &Vec<char>, suffix: &str) -> (e: String)
    ensures
        e@ == prefix@ + s@ + suffix@,
{
    let mut v: Vec<char> = Vec::new();
    push_str_chars(&mut v, prefix);
    let mut t = s.clone();
    v.append(&mut t);
    push_str_chars(&mut v, suffix);
    string_from_chars(&v)
}

/// Parses `YYYY-MM-DD` into the timestamp text DuckDB compares against;
/// `end_of_day` expands to `23:59:59` for the inclusive `--to` bound.
pub fn parse_date(s: &str, end_of_day: bool) -> (r: Result<String, String>)
    ensures
        match r {
            Ok(v) => parse_date_spec(s@, end_of_day) == Ok::<Seq<char>, Seq<char>>(v@),
            Err(e) => parse_date_spec(s@, end_of_day) == Err::<Seq<char>, Seq<char>>(e@),
        },
{
    let chars = chars_of(s);
    let parts = split_chars(&chars, '-');
    if parts.len() != 3 {
        return Err(quoted_message("invalid date '", &chars, "', expected YYYY-MM-DD"));
    }
    let y = match parse_unsigned_chars(&parts[0], 2147483647u32) {
        Some(v) => v,
        None => {
            return Err(quoted_message("invalid year in '", &chars, "'"));
        },
    };
    let m = match parse_unsigned_chars(&parts[1], 4294967295u32) {
        Some(v) => v,
        None => {
            return Err(quoted_message("invalid month in '", &chars, "'"));
        },
    };
    let d = match parse_unsigned_chars(&parts[2], 4294967295u32) {
        Some(v) => v,
        None => {
            return Err(quoted_message("invalid day in '", &chars, "'"));
        },
    };
    if !(1 <= m && m <= 12) || !(1 <= d && d <= 31) {
        return Err(quoted_message("invalid month/day in '", &chars, "'"));
    }
    let mut out = zero_padded(y as u64, 4);
    out.push('-');
    let mut mm = zero_padded(m as u64, 2);
    out.append(&mut mm);
    out.push('-');
    let mut dd = zero_padded(d as u64, 2);
    out.append(&mut dd);
    out.push(' ');
    if end_of_day {
        push_str_chars(&mut out, "23:59:59");
    } else {
        push_str_chars(&mut out, "00:00:00");
    }
    assert(out@ =~= date_text(y as nat, m as nat, d as nat, end_of_day));
    Ok(string_from_chars(&out))
}

/// The error `Scope::resolve` reports, if any: a project directory that could
/// not be determined comes first, then a bad `--from`, then a bad `--to`.
pub open spec fn resolve_error(
    all: bool,
    cwd_known: bool,
    from: Option<Seq<char>>,
    to: Option<Seq<char>>,
) -> Option<Seq<char>> {
    if !all && !cwd_known {
        Some("could not determine project directory"@)
    } else if from is Some && parse_date_spec(from->0, false) is Err {
        Some(parse_date_spec(from->0, false)->Err_0)
    } else if to is Some && parse_date_spec(to->0, true) is Err {
        Some(parse_date_spec(to->0, true)->Err_0)
    } else {
        None
    }
}

/// The view of an optional `&str`.
pub open spec fn opt_str_view(s: Option<&str>) -> Option<Seq<char>> {
    match s {
        Some(t) => Some(t@),
        None => None,
    }
}

impl Scope {
    /// Resolves the CLI flags into a scope. `cwd` is the canonical project
    /// directory (the `--project` path or the current directory), or `None`
    /// when it could not be determined; it is only consulted without `--all`.
    /// `from` is parsed as a start-of-day bound, `to` as an inclusive
    /// end-of-day bound.
    pub fn resolve(
        all: bool,
        cwd: Option<String>,
        no_subdirs: bool,
        from: Option<&str>,
        to: Option<&str>,
    ) -> (r: Result<Scope, String>)
        ensures
            match r {
                Ok(sc) => {
                    &&& resolve_error(all, cwd is Some, opt_str_view(from), opt_str_view(to)) is None
                    &&& sc.cwd_exact == (if all {
                        None
                    } else {
                        cwd
                    })
                    &&& sc.match_subdirs == (!no_subdirs && !all)
                    &&& match sc.from_iso {
                        Some(f) => from is Some && parse_date_spec(from->0@, false) == Ok::<
                            Seq<char>,
                            Seq<char>,
                        >(f@),
                        None => from is None,
                    }
                    &&& match sc.to_iso {
                        Some(t) => to is Some && parse_date_spec(to->0@, true) == Ok::<
                            Seq<char>,
                            Seq<char>,
                        >(t@),
                        None => to is None,
                    }
                },
                Err(e) => resolve_error(all, cwd is Some, opt_str_view(from), opt_str_view(to))
                    == Some(e@),
            },
    {
        let cwd_exact = if all {
            None
        } else {
            match cwd {
                Some(c) => Some(c),
                None => {
                    return Err(String::from_str("could not determine project directory"));
                },
            }
        };
        let from_iso = match from {
            None => None,
            Some(f) => Some(parse_date(f, false)?),
        };
        let to_iso = match to {
            None => None,
            Some(t) => Some(parse_date(t, true)?),
        };
        Ok(Scope { cwd_exact, match_subdirs: !no_subdirs && !all, from_iso, to_iso })
    }

    /// The cwd predicate for this scope: the exact directory, and with
    /// subdirectories also every cwd beginning with it and `/`; nothing for
    /// all projects.
    pub open spec fn cwd_sql(&self) -> Seq<char> {
        match self.cwd_exact {
            Some(_) => if self.match_subdirs {
                SUBDIRS_SQL@
            } else {
                EXACT_CWD_SQL@
            },
            None => Seq::<char>::empty(),
        }
    }

    /// The parameters of `cwd_sql`: the directory, and for subdirectories
    /// the directory again escaped for `LIKE`, so that `%` and `_` in a path
    /// match only themselves.
    pub open spec fn cwd_params(&self) -> Seq<Seq<char>> {
        match self.cwd_exact {
            Some(c) => if self.match_subdirs {
                seq![c@, like_escape(c@)]
            } else {
                seq![c@]
            },
            None => Seq::<Seq<char>>::empty(),
        }
    }

    /// The date predicates on each entry's timestamp.
    pub open spec fn date_sql(&self) -> Seq<char> {
        (if self.from_iso is Some {
            FROM_SQL@
        } else {
            Seq::<char>::empty()
        }) + (if self.to_iso is Some {
            TO_SQL@
        } else {
            Seq::<char>::empty()
        })
    }

    /// The parameters of the date bounds, `from` before `to`.
    pub open spec fn date_params(&self) -> Seq<Seq<char>> {
        (match self.from_iso {
            Some(f) => seq![f@],
            None => Seq::<Seq<char>>::empty(),
        }) + (match self.to_iso {
            Some(t) => seq![t@],
            None => Seq::<Seq<char>>::empty(),
        })
    }

    /// The text `append_where` adds to a `WHERE` clause for this scope.
    pub open spec fn where_sql(&self) -> Seq<char> {
        self.cwd_sql() + self.date_sql()
    }

    /// The bind parameters `append_where` adds, one per `?` it writes.
    pub open spec fn where_params(&self) -> Seq<Seq<char>> {
        self.cwd_params() + self.date_params()
    }

    /// The `HAVING` clause that bounds a group's first timestamp by the
    /// dates of this scope; nothing without dates.
    pub open spec fn start_having_sql(&self) -> Seq<char> {
        match (self.from_iso, self.to_iso) {
            (Some(_), Some(_)) => HAVING_FROM_SQL@ + HAVING_AND_TO_SQL@,
            (Some(_), None) => HAVING_FROM_SQL@,
            (None, Some(_)) => HAVING_TO_SQL@,
            (None, None) => Seq::<char>::empty(),
        }
    }

    /// Appends the cwd predicate and pushes its parameters.
    pub fn append_cwd_where(&self, sql: &mut String, params: &mut Vec<String>)
        ensures
            final(sql)@ == old(sql)@ + self.cwd_sql(),
            final(params)@.map_values(|p: String| p@) == old(params)@.map_values(|p: String| p@)
                + self.cwd_params(),
    {
        let ghost sql0 = sql@;
        let ghost params0 = params@.map_values(|p: String| p@);
        if let Some(cwd) = &self.cwd_exact {
            if self.match_subdirs {
                sql.append(SUBDIRS_SQL);
                params.push(cwd.clone());
                params.push(escape_like(cwd.as_str()));
            } else {
                sql.append(EXACT_CWD_SQL);
                params.push(cwd.clone());
            }
        }
        assert(sql@ =~= sql0 + self.cwd_sql());
        assert(params@.map_values(|p: String| p@) =~= params0 + self.cwd_params());
    }

    /// Appends `AND` predicates onto an existing WHERE clause (the caller has
    /// already written `WHERE 1=1` or similar) and pushes the literal-string
    /// parameters to bind, in order.
    pub fn append_where(&self, sql: &mut String, params: &mut Vec<String>)
        ensures
            final(sql)@ == old(sql)@ + self.where_sql(),
            final(params)@.map_values(|p: String| p@) == old(params)@.map_values(|p: String| p@)
                + self.where_params(),
    {
        let ghost sql0 = sql@;
        let ghost params0 = params@.map_values(|p: String| p@);
        self.append_cwd_where(sql, params);
        let ghost params1 = params@.map_values(|p: String| p@);
        if let Some(ts) = &self.from_iso {
            sql.append(FROM_SQL);
            params.push(ts.clone());
        }
        let ghost params2 = params@.map_values(|p: String| p@);
        assert(params2 =~= params1 + (match self.from_iso {
            Some(f) => seq![f@],
            None => Seq::<Seq<char>>::empty(),
        }));
        if let Some(ts) = &self.to_iso {
            sql.append(TO_SQL);
            params.push(ts.clone());
        }
        assert(params@.map_values(|p: String| p@) =~= params2 + (match self.to_iso {
            Some(t) => seq![t@],
            None => Seq::<Seq<char>>::empty(),
        }));
        assert(sql@ =~= sql0 + self.where_sql());
        assert(params@.map_values(|p: String| p@) =~= params0 + self.where_params());
    }

    /// Appends the `HAVING` clause bounding a group's first timestamp and
    /// pushes the date parameters.
    pub fn append_start_having(&self, sql: &mut String, params: &mut Vec<String>)
        ensures
            final(sql)@ == old(sql)@ + self.start_having_sql(),
            final(params)@.map_values(|p: String| p@) == old(params)@.map_values(|p: String| p@)
                + self.date_params(),
    {
        let ghost sql0 = sql@;
        let ghost params0 = params@.map_values(|p: String| p@);
        match (&self.from_iso, &self.to_iso) {
            (Some(f), Some(t)) => {
                sql.append(HAVING_FROM_SQL);
                sql.append(HAVING_AND_TO_SQL);
                params.push(f.clone());
                params.push(t.clone());
            },
            (Some(f), None) => {
                sql.append(HAVING_FROM_SQL);
                params.push(f.clone());
            },
            (None, Some(t)) => {
                sql.append(HAVING_TO_SQL);
                params.push(t.clone());
            },
            (None, None) => {},
        }
        assert(sql@ =~= sql0 + self.start_having_sql());
        assert(params@.map_values(|p: String| p@) =~= params0 + self.date_params());
    }
}

/// The predicate for the project directory and its subdirectories.
pub const SUBDIRS_SQL: &'static str = " AND (e.cwd = ? OR e.cwd LIKE ? || '/%' ESCAPE '\\')";

/// The predicate for the project directory alone.
pub const EXACT_CWD_SQL: &'static str = " AND e.cwd = ?";

/// The lower date bound on an entry.
pub const FROM_SQL: &'static str = " AND e.timestamp >= CAST(? AS TIMESTAMP)";

/// The upper (inclusive) date bound on an entry.
pub const TO_SQL: &'static str = " AND e.timestamp <= CAST(? AS TIMESTAMP)";

/// The lower date bound on a group's first entry.
pub const HAVING_FROM_SQL: &'static str = " HAVING MIN(e.timestamp) >= CAST(? AS TIMESTAMP)";

/// The upper date bound on a group's first entry, after the lower one.
pub const HAVING_AND_TO_SQL: &'static str = " AND MIN(e.timestamp) <= CAST(? AS TIMESTAMP)";

/// The upper date bound on a group's first entry, alone.
pub const HAVING_TO_SQL: &'static str = " HAVING MIN(e.timestamp) <= CAST(? AS TIMESTAMP)";

proof fn lemma_subdirs_placeholders()
    ensures
        count_char(SUBDIRS_SQL@, '?') == 2,
{
    reveal_strlit(" AND (e.cwd = ? OR e.cwd LIKE ? || '/%' ESCAPE '\\')");
    reveal_strlit(" AND (e.cwd = ? OR e.cwd LIKE ?");
    reveal_strlit(" || '/%' ESCAPE '\\')");
    let a = " AND (e.cwd = ? OR e.cwd LIKE ?"@;
    let b = " || '/%' ESCAPE '\\')"@;
    assert(SUBDIRS_SQL@ =~= a + b);
    assert(count_char(a, '?') == 2) by {
        reveal_with_fuel(count_char, 32);
    }
    assert(count_char(b, '?') == 0) by {
        reveal_with_fuel(count_char, 22);
    }
    lemma_count_char_concat(a, b, '?');
}

proof fn lemma_exact_placeholders()
    ensures
        count_char(EXACT_CWD_SQL@, '?') == 1,
{
    reveal_strlit(" AND e.cwd = ?");
    reveal_with_fuel(count_char, 20);
}

proof fn lemma_from_placeholders()
    ensures
        count_char(FROM_SQL@, '?') == 1,
{
    reveal_strlit(" AND e.timestamp >= CAST(? AS TIMESTAMP)");
    reveal_with_fuel(count_char, 45);
}

proof fn lemma_to_placeholders()
    ensures
        count_char(TO_SQL@, '?') == 1,
{
    reveal_strlit(" AND e.timestamp <= CAST(? AS TIMESTAMP)");
    reveal_with_fuel(count_char, 45);
}

/// Every `?` placeholder that `append_where` writes has exactly one bind
/// parameter pushed with it, whatever the scope.
pub proof fn law_where_placeholders_match_params(scope: Scope)
    ensures
        count_char(scope.where_sql(), '?') == scope.where_params().len(),
{
    lemma_subdirs_placeholders();
    lemma_exact_placeholders();
    lemma_from_placeholders();
    lemma_to_placeholders();
    let a = scope.cwd_sql();
    let b = if scope.from_iso is Some {
        FROM_SQL@
    } else {
        Seq::<char>::empty()
    };
    let c = if scope.to_iso is Some {
        TO_SQL@
    } else {
        Seq::<char>::empty()
    };
    lemma_count_char_concat(a, b, '?');
    lemma_count_char_concat(a + b, c, '?');
    assert(scope.where_sql() =~= a + b + c);
}

/// Each date bound adds its own comparison on the entry timestamp, whatever
/// the project part says: `--from` a lower bound `>=` bound to the from
/// timestamp, `--to` an inclusive upper bound `<=` bound to the to
/// timestamp, the lower one first; with `--all` the bounds stay.
pub proof fn law_date_bounds_follow_dates(scope: Scope)
    ensures
        scope.where_sql() == scope.cwd_sql() + (if scope.from_iso is Some {
            " AND e.timestamp >= CAST(? AS TIMESTAMP)"@
        } else {
            Seq::<char>::empty()
        }) + (if scope.to_iso is Some {
            " AND e.timestamp <= CAST(? AS TIMESTAMP)"@
        } else {
            Seq::<char>::empty()
        }),
        scope.where_params() == scope.cwd_params() + (match scope.from_iso {
            Some(f) => seq![f@],
            None => Seq::<Seq<char>>::empty(),
        }) + (match scope.to_iso {
            Some(t) => seq![t@],
            None => Seq::<Seq<char>>::empty(),
        }),
        scope.cwd_exact is None ==> scope.cwd_sql() == Seq::<char>::empty()
            && scope.cwd_params() == Seq::<Seq<char>>::empty(),
{
    reveal_strlit(" AND e.timestamp >= CAST(? AS TIMESTAMP)");
    reveal_strlit(" AND e.timestamp <= CAST(? AS TIMESTAMP)");
    assert(scope.where_sql() =~= scope.cwd_sql() + (if scope.from_iso is Some {
        " AND e.timestamp >= CAST(? AS TIMESTAMP)"@
    } else {
        Seq::<char>::empty()
    }) + (if scope.to_iso is Some {
        " AND e.timestamp <= CAST(? AS TIMESTAMP)"@
    } else {
        Seq::<char>::empty()
    }));
    assert(scope.where_params() =~= scope.cwd_params() + (match scope.from_iso {
        Some(f) => seq![f@],
        None => Seq::<Seq<char>>::empty(),
    }) + (match scope.to_iso {
        Some(t) => seq![t@],
        None => Seq::<Seq<char>>::empty(),
    }));
}

/// A session is kept when its first entry is at or after `--from` and at or
/// before `--to`: the lower bound `>=` bound to the from timestamp, the
/// upper bound `<=` bound to the to timestamp, the lower one first, and no
/// `HAVING` clause without dates.
pub proof fn law_session_start_bounds(scope: Scope)
    ensures
        scope.start_having_sql() == (match (scope.from_iso, scope.to_iso) {
            (Some(_), Some(_)) =>
                " HAVING MIN(e.timestamp) >= CAST(? AS TIMESTAMP) AND MIN(e.timestamp) <= CAST(? AS TIMESTAMP)"@,
            (Some(_), None) => " HAVING MIN(e.timestamp) >= CAST(? AS TIMESTAMP)"@,
            (None, Some(_)) => " HAVING MIN(e.timestamp) <= CAST(? AS TIMESTAMP)"@,
            (None, None) => Seq::<char>::empty(),
        }),
        scope.date_params() == (match (scope.from_iso, scope.to_iso) {
            (Some(f), Some(t)) => seq![f@, t@],
            (Some(f), None) => seq![f@],
            (None, Some(t)) => seq![t@],
            (None, None) => Seq::<Seq<char>>::empty(),
        }),
{
    reveal_strlit(" HAVING MIN(e.timestamp) >= CAST(? AS TIMESTAMP) AND MIN(e.timestamp) <= CAST(? AS TIMESTAMP)");
    reveal_strlit(" HAVING MIN(e.timestamp) >= CAST(? AS TIMESTAMP)");
    reveal_strlit(" HAVING MIN(e.timestamp) <= CAST(? AS TIMESTAMP)");
    reveal_strlit(" AND MIN(e.timestamp) <= CAST(? AS TIMESTAMP)");
    assert(HAVING_FROM_SQL@ + HAVING_AND_TO_SQL@ =~= " HAVING MIN(e.timestamp) >= CAST(? AS TIMESTAMP) AND MIN(e.timestamp) <= CAST(? AS TIMESTAMP)"@);
    assert(scope.date_params() =~= (match (scope.from_iso, scope.to_iso) {
        (Some(f), Some(t)) => seq![f@, t@],
        (Some(f), None) => seq![f@],
        (None, Some(t)) => seq![t@],
        (None, None) => Seq::<Seq<char>>::empty(),
    }));
}

} // verus!
