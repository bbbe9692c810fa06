//! `cct report usage` — token & cost breakdown by model.
//!
//! The report aggregates `assistant_entries_deduped` (the cost-correct
//! table) joined to `entries` for cwd / timestamp filtering. This module
//! holds the query text, the integer totals, the time-span arithmetic and
//! the text helpers of the rendering; dollar amounts stay with the caller.
use vstd::prelude::*;
use vstd::utf8::{
    decode_utf8, encode_utf8, encode_utf8_decode_utf8, encode_utf8_valid_utf8, is_ascii_chars,
    is_ascii_chars_encode_utf8, is_char_boundary, is_char_boundary_start_end_of_seq,
};

use crate::calendar::{
    civil_from_days, civil_overflows, civil_seconds, fields_overflow, fields_to_secs, iso_text,
    law_calendar_round_trip, lemma_decimal_len2, lemma_decimal_len4, lemma_year_in_range,
    two_digits, year_text,
};
use crate::scope::Scope;
use crate::text::{
    chars_of, decimal, digit_char, find_char, index_of, pad_left, pad_right, parse_unsigned,
    parse_unsigned_chars, push_padded_left, push_padded_right, push_str_chars, split_chars,
    split_on, string_from_chars, sub_chars, u64_digits, all_digits, is_digit, pad_zeros,
    lemma_padded_parses, lemma_split_on_concat, lemma_split_on_whole, lemma_index_of,
    lemma_decimal_reads_back, lemma_split_on_pieces,
};

verus! {

// ── Queries ──────────────────────────────────────────────────────────────────

/// Per-model aggregate query, before the scope predicates.
pub const BY_MODEL_SQL_HEAD: &'static str = "SELECT d.model, COUNT(*) FILTER (WHERE d.message_id IS NOT NULL) AS calls, COALESCE(SUM(d.input_tokens), 0) AS input_tokens, COALESCE(SUM(d.cache_creation_5m), 0) AS cache_write_5m, COALESCE(SUM(d.cache_creation_1h), 0) AS cache_write_1h, COALESCE(SUM(d.cache_read_input_tokens), 0) AS cache_read, COALESCE(SUM(d.output_tokens), 0) AS output_tokens, COALESCE(SUM(d.cost_usd), 0.0) AS cost_usd FROM assistant_entries_deduped d JOIN entries e ON e.entry_id = d.entry_id WHERE d.model IS NOT NULL AND d.model <> '<synthetic>'";

/// Grouping and ordering of the per-model query: costliest model first.
pub const BY_MODEL_SQL_TAIL: &'static str = " GROUP BY d.model ORDER BY cost_usd DESC, d.model";

/// First / last event timestamp query, before the scope predicates.
pub const TIME_RANGE_SQL_HEAD: &'static str = "SELECT CAST(MIN(e.timestamp) AS VARCHAR), CAST(MAX(e.timestamp) AS VARCHAR) FROM entries e WHERE 1=1";

/// The per-model usage query for `scope` and the parameters to bind to it.
pub fn by_model_query(scope: &Scope) -> (r: (String, Vec<String>))
    ensures
        r.0@ == BY_MODEL_SQL_HEAD@ + scope.where_sql() + BY_MODEL_SQL_TAIL@,
        r.1@.map_values(|p: String| p@) == scope.where_params(),
{
    let mut sql = String::from_str(BY_MODEL_SQL_HEAD);
    let mut params: Vec<String> = Vec::new();
    proof {
        assert(params@.map_values(|p: String| p@) =~= Seq::<Seq<char>>::empty());
    }
    scope.append_where(&mut sql, &mut params);
    sql.append(BY_MODEL_SQL_TAIL);
    (sql, params)
}

/// The first / last event query for `scope` and the parameters to bind.
pub fn time_range_query(scope: &Scope) -> (r: (String, Vec<String>))
    ensures
        r.0@ == TIME_RANGE_SQL_HEAD@ + scope.where_sql(),
        r.1@.map_values(|p: String| p@) == scope.where_params(),
{
    let mut sql = String::from_str(TIME_RANGE_SQL_HEAD);
    let mut params: Vec<String> = Vec::new();
    proof {
        assert(params@.map_values(|p: String| p@) =~= Seq::<Seq<char>>::empty());
    }
    scope.append_where(&mut sql, &mut params);
    (sql, params)
}


// ── Time span ────────────────────────────────────────────────────────────────

/// The first `n` bytes of the UTF-8 text `s`, when they end on a character
/// boundary (std `str::get(..n)`).
pub open spec fn byte_prefix(s: Seq<char>, n: int) -> Option<Seq<char>> {
    let b = encode_utf8(s);
    if n <= b.len() && is_char_boundary(b, n) {
        Some(decode_utf8(b.subrange(0, n)))
    } else {
        None
    }
}

/// Calendar fields `(year, month, day, hour, minute, second)` read from the
/// leading `YYYY-MM-DD HH:MM:SS` of a DuckDB timestamp text (any fractional
/// seconds after the 19th byte are ignored): the date and time halves split
/// at the first space, each field parsed as std parses an integer (year as
/// `i32`, the others as `u32`), extra `-` / `:` pieces ignored.
pub open spec fn timestamp_fields(s: Seq<char>) -> Option<(nat, nat, nat, nat, nat, nat)> {
    match byte_prefix(s, 19) {
        None => None,
        Some(head) => match index_of(head, ' ') {
            None => None,
            Some(i) => {
                let dp = split_on(head.take(i), '-');
                let tp = split_on(head.skip(i + 1), ':');
                if dp.len() >= 3 && tp.len() >= 3 && parse_unsigned(dp[0], i32::MAX as nat) is Some
                    && parse_unsigned(dp[1], u32::MAX as nat) is Some && parse_unsigned(
                    dp[2],
                    u32::MAX as nat,
                ) is Some && parse_unsigned(tp[0], u32::MAX as nat) is Some && parse_unsigned(
                    tp[1],
                    u32::MAX as nat,
                ) is Some && parse_unsigned(tp[2], u32::MAX as nat) is Some {
                    Some(
                        (
                            parse_unsigned(dp[0], i32::MAX as nat)->0,
                            parse_unsigned(dp[1], u32::MAX as nat)->0,
                            parse_unsigned(dp[2], u32::MAX as nat)->0,
                            parse_unsigned(tp[0], u32::MAX as nat)->0,
                            parse_unsigned(tp[1], u32::MAX as nat)->0,
                            parse_unsigned(tp[2], u32::MAX as nat)->0,
                        ),
                    )
                } else {
                    None
                }
            },
        },
    }
}

/// Seconds since the epoch of a timestamp text, `None` when it does not
/// parse.
pub open spec fn timestamp_seconds(s: Seq<char>) -> Option<int> {
    match timestamp_fields(s) {
        Some((y, m, d, h, mi, se)) => Some(
            civil_seconds(y as int, m as int, d as int, h as int, mi as int, se as int),
        ),
        None => None,
    }
}

/// Whether reading the timestamp text `s` would overflow.
pub open spec fn timestamp_overflows(s: Seq<char>) -> bool {
    match timestamp_fields(s) {
        Some((y, m, d, h, mi, se)) => civil_overflows(y as int, m as int, d as int),
        None => false,
    }
}

/// Parses the fields of a timestamp text.
fn read_timestamp_fields(s: &str) -> (r: Option<(u32, u32, u32, u32, u32, u32)>)
    ensures
        match r {
            Some(f) => timestamp_fields(s@) == Some(
                (f.0 as nat, f.1 as nat, f.2 as nat, f.3 as nat, f.4 as nat, f.5 as nat),
            ),
            None => timestamp_fields(s@) is None,
        },
{
    proof {
        encode_utf8_valid_utf8(s@);
    }
    if !s.is_char_boundary(19) {
        return None;
    }
    let (head_str, _rest) = s.split_at(19);
    proof {
        encode_utf8_decode_utf8(head_str@);
        assert(byte_prefix(s@, 19) == Some(head_str@));
    }
    let head = chars_of(head_str);
    let sp = match find_char(&head, ' ') {
        Some(i) => i,
        None => {
            return None;
        },
    };
    let date = sub_chars(&head, 0, sp);
    assert(sp < head.len());
    let time = sub_chars(&head, sp + 1, head.len());
    assert(date@ == head@.take(sp as int));
    assert(time@ == head@.skip(sp + 1));
    let dp = split_chars(&date, '-');
    let tp = split_chars(&time, ':');
    if dp.len() < 3 || tp.len() < 3 {
        return None;
    }
    let y = match parse_unsigned_chars(&dp[0], 2147483647u32) {
        Some(v) => v,
        None => {
            return None;
        },
    };
    let mo = match parse_unsigned_chars(&dp[1], 4294967295u32) {
        Some(v) => v,
        None => {
            return None;
        },
    };
    let d = match parse_unsigned_chars(&dp[2], 4294967295u32) {
        Some(v) => v,
        None => {
            return None;
        },
    };
    let h = match parse_unsigned_chars(&tp[0], 4294967295u32) {
        Some(v) => v,
        None => {
            return None;
        },
    };
    let mi = match parse_unsigned_chars(&tp[1], 4294967295u32) {
        Some(v) => v,
        None => {
            return None;
        },
    };
    let se = match parse_unsigned_chars(&tp[2], 4294967295u32) {
        Some(v) => v,
        None => {
            return None;
        },
    };
    Some((y, mo, d, h, mi, se))
}

/// Whether reading the timestamp text `s` as `parse_duration` does would
/// overflow (the caller must not pass such text).
pub fn timestamp_would_overflow(s: &str) -> (r: bool)
    ensures
        r == timestamp_overflows(s@),
{
    match read_timestamp_fields(s) {
        Some((y, mo, d, _h, _mi, _se)) => fields_overflow(y, mo, d),
        None => false,
    }
}

/// The whole-second span from `first` to `last`, never negative; `None`
/// when either bound is missing or does not parse.
pub open spec fn duration_spec(first: Option<Seq<char>>, last: Option<Seq<char>>) -> Option<int> {
    match first {
        None => None,
        Some(f) => match timestamp_seconds(f) {
            None => None,
            Some(a) => match last {
                None => None,
                Some(l) => match timestamp_seconds(l) {
                    None => None,
                    Some(b) => Some(if b - a > 0 {
                        b - a
                    } else {
                        0
                    }),
                },
            },
        },
    }
}

/// Whether `parse_duration` reads a timestamp whose arithmetic would
/// overflow: the first bound when given, the last when the first parsed.
pub open spec fn duration_overflows(first: Option<Seq<char>>, last: Option<Seq<char>>) -> bool {
    match first {
        None => false,
        Some(f) => timestamp_overflows(f) || (timestamp_seconds(f) is Some && match last {
            None => false,
            Some(l) => timestamp_overflows(l),
        }),
    }
}

/// The whole-second span between two DuckDB timestamp texts
/// (`YYYY-MM-DD HH:MM:SS[.ffffff]`), clamped at zero.
pub fn parse_duration(first: Option<&str>, last: Option<&str>) -> (r: Option<i64>)
    requires
        !duration_overflows(
            match first {
                Some(f) => Some(f@),
                None => None,
            },
            match last {
                Some(l) => Some(l@),
                None => None,
            },
        ),
    ensures
        match r {
            Some(v) => duration_spec(
                match first {
                    Some(f) => Some(f@),
                    None => None,
                },
                match last {
                    Some(l) => Some(l@),
                    None => None,
                },
            ) == Some(v as int),
            None => duration_spec(
                match first {
                    Some(f) => Some(f@),
                    None => None,
                },
                match last {
                    Some(l) => Some(l@),
                    None => None,
                },
            ) is None,
        },
{
    let f = match first {
        Some(f) => f,
        None => {
            return None;
        },
    };
    let (y, mo, d, h, mi, se) = match read_timestamp_fields(f) {
        Some(t) => t,
        None => {
            return None;
        },
    };
    let a = fields_to_secs(y, mo, d, h, mi, se);
    let l = match last {
        Some(l) => l,
        None => {
            return None;
        },
    };
    let (y, mo, d, h, mi, se) = match read_timestamp_fields(l) {
        Some(t) => t,
        None => {
            return None;
        },
    };
    let b = fields_to_secs(y, mo, d, h, mi, se);
    if b - a > 0 {
        Some(b - a)
    } else {
        Some(0)
    }
}


/// `parse_duration` where its arithmetic fits, `None` where reading a bound
/// would overflow.
pub fn checked_duration(first: Option<&str>, last: Option<&str>) -> (r: Option<Option<i64>>)
    ensures
        r is None <==> duration_overflows(
            match first {
                Some(f) => Some(f@),
                None => None,
            },
            match last {
                Some(l) => Some(l@),
                None => None,
            },
        ),
        match r {
            Some(Some(v)) => duration_spec(
                match first {
                    Some(f) => Some(f@),
                    None => None,
                },
                match last {
                    Some(l) => Some(l@),
                    None => None,
                },
            ) == Some(v as int),
            Some(None) => duration_spec(
                match first {
                    Some(f) => Some(f@),
                    None => None,
                },
                match last {
                    Some(l) => Some(l@),
                    None => None,
                },
            ) is None,
            None => true,
        },
{
    if let Some(f) = first {
        if timestamp_would_overflow(f) {
            return None;
        }
        if read_timestamp_fields(f).is_some() {
            if let Some(l) = last {
                if timestamp_would_overflow(l) {
                    return None;
                }
            }
        }
    }
    Some(parse_duration(first, last))
}


// ── Totals ───────────────────────────────────────────────────────────────────

/// The integer columns of one per-model row of the report.
#[derive(Debug, Clone)]
pub struct ModelCounts {
    pub model: String,
    pub calls: i64,
    pub input_tokens: i64,
    pub cache_write_5m: i64,
    pub cache_write_1h: i64,
    pub cache_read: i64,
    pub output_tokens: i64,
}

/// The integer columns of the report's totals row.
#[derive(Debug, Clone, Copy, PartialEq, Eq)]
pub struct CountTotals {
    pub calls: i64,
    pub input_tokens: i64,
    pub cache_write_5m: i64,
    pub cache_write_1h: i64,
    pub cache_read: i64,
    pub output_tokens: i64,
}

/// The six summed columns of a row, in report order.
pub open spec fn row_columns(r: ModelCounts) -> Seq<int> {
    seq![
        r.calls as int,
        r.input_tokens as int,
        r.cache_write_5m as int,
        r.cache_write_1h as int,
        r.cache_read as int,
        r.output_tokens as int,
    ]
}

/// Sum of column `c` over `rows`.
pub open spec fn column_sum(rows: Seq<ModelCounts>, c: int) -> int
    decreases rows.len(),
{
    if rows.len() == 0 {
        0
    } else {
        column_sum(rows.drop_last(), c) + row_columns(rows.last())[c]
    }
}

/// Whether every running sum of every column stays within `i64`, as
/// adding the rows up one by one requires.
pub open spec fn sums_fit(rows: Seq<ModelCounts>) -> bool {
    forall|k: int, c: int|
        0 <= k <= rows.len() && 0 <= c < 6 ==> i64::MIN <= #[trigger] column_sum(rows.take(k), c)
            <= i64::MAX
}

/// Column-wise totals of the per-model rows.
pub fn sum_counts(rows: &Vec<ModelCounts>) -> (t: CountTotals)
    requires
        sums_fit(rows@),
    ensures
        t.calls == column_sum(rows@, 0),
        t.input_tokens == column_sum(rows@, 1),
        t.cache_write_5m == column_sum(rows@, 2),
        t.cache_write_1h == column_sum(rows@, 3),
        t.cache_read == column_sum(rows@, 4),
        t.output_tokens == column_sum(rows@, 5),
{
    let mut t = CountTotals {
        calls: 0,
        input_tokens: 0,
        cache_write_5m: 0,
        cache_write_1h: 0,
        cache_read: 0,
        output_tokens: 0,
    };
    let mut i: usize = 0;
    assert(rows@.take(0) =~= Seq::<ModelCounts>::empty());
    while i < rows.len()
        invariant
            i <= rows.len(),
            sums_fit(rows@),
            t.calls == column_sum(rows@.take(i as int), 0),
            t.input_tokens == column_sum(rows@.take(i as int), 1),
            t.cache_write_5m == column_sum(rows@.take(i as int), 2),
            t.cache_write_1h == column_sum(rows@.take(i as int), 3),
            t.cache_read == column_sum(rows@.take(i as int), 4),
            t.output_tokens == column_sum(rows@.take(i as int), 5),
        decreases rows.len() - i,
    {
        let r = &rows[i];
        let ghost next = rows@.take(i + 1);
        assert(next.drop_last() =~= rows@.take(i as int));
        assert(next.last() == rows@[i as int]);
        assert(i64::MIN <= column_sum(next, 0) <= i64::MAX);
        assert(i64::MIN <= column_sum(next, 1) <= i64::MAX);
        assert(i64::MIN <= column_sum(next, 2) <= i64::MAX);
        assert(i64::MIN <= column_sum(next, 3) <= i64::MAX);
        assert(i64::MIN <= column_sum(next, 4) <= i64::MAX);
        assert(i64::MIN <= column_sum(next, 5) <= i64::MAX);
        t.calls = t.calls + r.calls;
        t.input_tokens = t.input_tokens + r.input_tokens;
        t.cache_write_5m = t.cache_write_5m + r.cache_write_5m;
        t.cache_write_1h = t.cache_write_1h + r.cache_write_1h;
        t.cache_read = t.cache_read + r.cache_read;
        t.output_tokens = t.output_tokens + r.output_tokens;
        i = i + 1;
    }
    assert(rows@.take(rows.len() as int) =~= rows@);
    t
}

/// Tokens of input the model saw: fresh input plus both cache writes plus
/// cache reads, summed left to right.
pub open spec fn effective_input_spec(t: CountTotals) -> int {
    t.input_tokens + t.cache_write_5m + t.cache_write_1h + t.cache_read
}

/// Whether the running sums of `effective_input_spec` stay within `i64`.
pub open spec fn effective_input_fits(t: CountTotals) -> bool {
    &&& i64::MIN <= t.input_tokens + t.cache_write_5m <= i64::MAX
    &&& i64::MIN <= t.input_tokens + t.cache_write_5m + t.cache_write_1h <= i64::MAX
    &&& i64::MIN <= effective_input_spec(t) <= i64::MAX
}

/// The effective input of the totals (denominator of the cache hit rate,
/// which is only computed when this is positive).
pub fn effective_input(t: &CountTotals) -> (r: i64)
    requires
        effective_input_fits(*t),
    ensures
        r == effective_input_spec(*t),
{
    t.input_tokens + t.cache_write_5m + t.cache_write_1h + t.cache_read
}

// ── Text helpers ─────────────────────────────────────────────────────────────

/// Digits grouped in threes from the right, separated by commas.
pub open spec fn group_digits(d: Seq<char>) -> Seq<char>
    decreases d.len(),
{
    if d.len() <= 3 {
        d
    } else {
        group_digits(d.take(d.len() - 3)) + seq![','] + d.skip(d.len() - 3)
    }
}

/// `n` in decimal with thousands separators, e.g. `-1,234`.
pub open spec fn commas_spec(n: int) -> Seq<char> {
    (if n < 0 {
        seq!['-']
    } else {
        Seq::<char>::empty()
    }) + group_digits(decimal(abs_int(n)))
}

/// Absolute value.
pub open spec fn abs_int(n: int) -> nat {
    if n < 0 {
        (-n) as nat
    } else {
        n as nat
    }
}

fn group_prefix(d: &Vec<char>, end: usize) -> (r: Vec<char>)
    requires
        end <= d@.len(),
    ensures
        r@ == group_digits(d@.take(end as int)),
    decreases end,
{
    if end <= 3 {
        let r = sub_chars(d, 0, end);
        assert(r@ =~= d@.take(end as int));
        r
    } else {
        let mut r = group_prefix(d, end - 3);
        r.push(',');
        let mut tail = sub_chars(d, end - 3, end);
        r.append(&mut tail);
        let ghost t = d@.take(end as int);
        assert(t.take(t.len() - 3) =~= d@.take(end - 3));
        assert(t.skip(t.len() - 3) =~= d@.subrange(end - 3, end as int));
        r
    }
}

/// Renders `n` with thousands separators (`1234567` → `1,234,567`).
pub fn commas(n: i64) -> (r: String)
    ensures
        r@ == commas_spec(n as int),
{
    let abs: u64 = if n < 0 {
        ((-(n + 1)) as u64) + 1
    } else {
        n as u64
    };
    let digits = u64_digits(abs);
    let grouped = group_prefix(&digits, digits.len());
    assert(digits@.take(digits@.len() as int) =~= digits@);
    let mut out: Vec<char> = Vec::new();
    if n < 0 {
        out.push('-');
    }
    let mut g = grouped;
    out.append(&mut g);
    string_from_chars(&out)
}

/// Text with every comma removed.
pub open spec fn strip_commas(s: Seq<char>) -> Seq<char>
    decreases s.len(),
{
    if s.len() == 0 {
        s
    } else {
        strip_commas(s.drop_last()) + if s.last() == ',' {
            Seq::<char>::empty()
        } else {
            seq![s.last()]
        }
    }
}

proof fn lemma_strip_concat(a: Seq<char>, b: Seq<char>)
    ensures
        strip_commas(a + b) == strip_commas(a) + strip_commas(b),
    decreases b.len(),
{
    if b.len() == 0 {
        assert(a + b =~= a);
        assert(strip_commas(a) + strip_commas(b) =~= strip_commas(a));
    } else {
        lemma_strip_concat(a, b.drop_last());
        assert((a + b).drop_last() =~= a + b.drop_last());
        assert((a + b).last() == b.last());
    }
}

proof fn lemma_strip_plain(d: Seq<char>)
    requires
        forall|i: int| 0 <= i < d.len() ==> d[i] != ',',
    ensures
        strip_commas(d) == d,
    decreases d.len(),
{
    if d.len() > 0 {
        lemma_strip_plain(d.drop_last());
        assert(d.drop_last().push(d.last()) =~= d);
    }
}

proof fn lemma_strip_group(d: Seq<char>)
    requires
        forall|i: int| 0 <= i < d.len() ==> d[i] != ',',
    ensures
        strip_commas(group_digits(d)) == d,
    decreases d.len(),
{
    if d.len() <= 3 {
        lemma_strip_plain(d);
    } else {
        let a = d.take(d.len() - 3);
        let b = d.skip(d.len() - 3);
        lemma_strip_group(a);
        lemma_strip_plain(b);
        lemma_strip_concat(group_digits(a) + seq![','], b);
        lemma_strip_concat(group_digits(a), seq![',']);
        assert(strip_commas(seq![',']) =~= Seq::<char>::empty()) by {
            assert(seq![','].drop_last() =~= Seq::<char>::empty());
            reveal_with_fuel(strip_commas, 2);
        }
        assert(a + b =~= d);
    }
}

proof fn lemma_decimal_digits(n: nat)
    ensures
        forall|i: int| 0 <= i < decimal(n).len() ==> '0' <= #[trigger] decimal(n)[i] <= '9',
    decreases n,
{
    lemma_digit_char_is_digit((n % 10) as int);
    if n >= 10 {
        lemma_decimal_digits(n / 10);
        let p = decimal(n / 10);
        assert forall|i: int| 0 <= i < decimal(n).len() implies '0' <= #[trigger] decimal(n)[i]
            <= '9' by {
            if i < p.len() {
                assert(decimal(n)[i] == p[i]);
            }
        }
    } else {
        assert(n % 10 == n);
    }
}

proof fn lemma_digit_char_is_digit(d: int)
    requires
        0 <= d < 10,
    ensures
        '0' <= digit_char(d) <= '9',
{
    assert(((48 + d) as u8) as char as u32 == 48 + d);
}

/// The separators are all `commas` adds: without them the text is the
/// plain decimal rendering, with a `-` for negative numbers.
pub proof fn law_commas_only_adds_separators(n: i64)
    ensures
        strip_commas(commas_spec(n as int)) == (if n < 0 {
            seq!['-']
        } else {
            Seq::<char>::empty()
        }) + decimal(abs_int(n as int)),
{
    let d = decimal(abs_int(n as int));
    lemma_decimal_digits(abs_int(n as int));
    assert forall|i: int| 0 <= i < d.len() implies d[i] != ',' by {
        assert('0' <= d[i] <= '9');
    }
    lemma_strip_group(d);
    let sign = if n < 0 {
        seq!['-']
    } else {
        Seq::<char>::empty()
    };
    lemma_strip_concat(sign, group_digits(d));
    assert(strip_commas(sign) == sign) by {
        if n < 0 {
            assert(seq!['-'].drop_last() =~= Seq::<char>::empty());
            reveal_with_fuel(strip_commas, 2);
        }
    }
}

proof fn lemma_group_pieces(d: Seq<char>)
    requires
        d.len() >= 1,
        forall|i: int| 0 <= i < d.len() ==> #[trigger] d[i] != ',',
    ensures
        split_on(group_digits(d), ',').len() >= 1,
        1 <= split_on(group_digits(d), ',')[0].len() <= 3,
        forall|i: int|
            1 <= i < split_on(group_digits(d), ',').len() ==> #[trigger] split_on(
                group_digits(d),
                ',',
            )[i].len() == 3,
    decreases d.len(),
{
    if d.len() <= 3 {
        lemma_split_on_whole(d, ',');
    } else {
        let head = d.take(d.len() - 3);
        let tail = d.skip(d.len() - 3);
        lemma_group_pieces(head);
        assert forall|i: int| 0 <= i < tail.len() implies #[trigger] tail[i] != ',' by {
            assert(tail[i] == d[i + d.len() - 3]);
        }
        lemma_split_on_whole(tail, ',');
        lemma_split_on_concat(group_digits(head), tail, ',');
        let g = split_on(group_digits(head), ',');
        assert(split_on(group_digits(d), ',') == g + seq![tail]);
        assert(tail.len() == 3);
    }
}

/// The thousands groups of `commas(n)`: after an optional `-`, the text
/// splits at its commas into a leading group of one to three digits and
/// then groups of exactly three, so a separator stands before every third
/// digit from the right and nowhere else.
pub proof fn law_commas_groups(n: i64)
    ensures
        ({
            let body = commas_spec(n as int).skip(if n < 0 { 1int } else { 0int });
            let g = split_on(body, ',');
            &&& commas_spec(n as int).len() >= 1
            &&& (n < 0 <==> commas_spec(n as int)[0] == '-')
            &&& g.len() >= 1
            &&& 1 <= g[0].len() <= 3
            &&& forall|i: int| 1 <= i < g.len() ==> #[trigger] g[i].len() == 3
        }),
{
    let d = decimal(abs_int(n as int));
    lemma_decimal_digits(abs_int(n as int));
    lemma_decimal_reads_back(abs_int(n as int));
    assert forall|i: int| 0 <= i < d.len() implies #[trigger] d[i] != ',' by {
        assert('0' <= d[i] <= '9');
    }
    lemma_group_pieces(d);
    let sign = if n < 0 {
        seq!['-']
    } else {
        Seq::<char>::empty()
    };
    let c = commas_spec(n as int);
    assert(c == sign + group_digits(d));
    assert(c.skip(if n < 0 { 1int } else { 0int }) =~= group_digits(d));
    let g0 = split_on(group_digits(d), ',')[0];
    if n >= 0 {
        assert(group_digits(d).len() >= 1) by {
            lemma_split_on_pieces(group_digits(d), ',');
            if group_digits(d).len() == 0 {
                assert(split_on(group_digits(d), ',') =~= seq![Seq::<char>::empty()]);
            }
        }
        lemma_group_first_digit(d);
    }
}

/// Grouped digits start with the first digit.
proof fn lemma_group_first_digit(d: Seq<char>)
    requires
        d.len() >= 1,
    ensures
        group_digits(d).len() >= 1,
        group_digits(d)[0] == d[0],
    decreases d.len(),
{
    if d.len() > 3 {
        let head = d.take(d.len() - 3);
        lemma_group_first_digit(head);
        assert(group_digits(d)[0] == group_digits(head)[0]);
    }
}

/// The text `truncate` gives for the characters `s`: `s` when its UTF-8
/// length (as `str::len` reports it) is at most `n`, else its first `n - 1`
/// bytes (0 when `n` is 0) followed by `…`.
pub open spec fn truncate_text(s: Seq<char>, n: usize) -> Seq<char> {
    if (encode_utf8(s).len() as usize) <= n {
        s
    } else {
        byte_prefix(
            s,
            if n == 0 {
                0
            } else {
                n - 1
            },
        )->0 + "…"@
    }
}

/// The text `truncate` gives for `s`.
pub open spec fn truncate_spec(s: &str, n: usize) -> Seq<char> {
    truncate_text(s@, n)
}

/// Shortens `s` to fit a column of `n` bytes, marking the cut with `…`.
pub fn truncate(s: &str, n: usize) -> (r: String)
    requires
        s.len() > n ==> is_char_boundary(
            encode_utf8(s@),
            if n == 0 {
                0
            } else {
                n - 1
            },
        ),
    ensures
        r@ == truncate_spec(s, n),
{
    if s.len() <= n {
        String::from_str(s)
    } else {
        let k: usize = if n == 0 {
            0
        } else {
            n - 1
        };
        proof {
            encode_utf8_valid_utf8(s@);
        }
        let (a, _rest) = s.split_at(k);
        proof {
            encode_utf8_decode_utf8(a@);
            vstd::utf8::is_char_boundary_start_end_of_seq(encode_utf8(s@));
        }
        assert(k <= encode_utf8(s@).len()) by {
            if k > 0 {
                reveal_with_fuel(is_char_boundary, 1);
            }
        }
        assert(byte_prefix(s@, k as int) == Some(a@));
        let mut r = String::from_str(a);
        r.append("…");
        r
    }
}

/// The column headings of the per-model table.
pub open spec fn header_row_spec() -> Seq<char> {
    pad_right("Model"@, 32) + "  "@ + pad_left("Calls"@, 8) + "  "@ + pad_left("Input"@, 14)
        + "  "@ + pad_left("Cache W5m"@, 14) + "  "@ + pad_left("Cache W1h"@, 14) + "  "@
        + pad_left("Cache Read"@, 14) + "  "@ + pad_left("Output"@, 14) + "  "@ + pad_left(
        "Cost"@,
        10,
    )
}

/// The heading line of the per-model table.
pub fn header_row() -> (r: String)
    ensures
        r@ == header_row_spec(),
{
    let mut v: Vec<char> = Vec::new();
    push_padded_right(&mut v, "Model", 32);
    push_str_chars(&mut v, "  ");
    push_padded_left(&mut v, "Calls", 8);
    push_str_chars(&mut v, "  ");
    push_padded_left(&mut v, "Input", 14);
    push_str_chars(&mut v, "  ");
    push_padded_left(&mut v, "Cache W5m", 14);
    push_str_chars(&mut v, "  ");
    push_padded_left(&mut v, "Cache W1h", 14);
    push_str_chars(&mut v, "  ");
    push_padded_left(&mut v, "Cache Read", 14);
    push_str_chars(&mut v, "  ");
    push_padded_left(&mut v, "Output", 14);
    push_str_chars(&mut v, "  ");
    push_padded_left(&mut v, "Cost", 10);
    string_from_chars(&v)
}

/// The columns of a per-model table row before its dollar amount: the
/// model (shortened to 32 bytes) and the six counts with thousands
/// separators, each in its column, ending with the gap before the cost.
pub open spec fn counts_row_spec(m: &ModelCounts) -> Seq<char> {
    pad_right(truncate_text(m.model@, 32), 32) + "  "@ + pad_left(commas_spec(m.calls as int), 8)
        + "  "@ + pad_left(commas_spec(m.input_tokens as int), 14) + "  "@ + pad_left(
        commas_spec(m.cache_write_5m as int),
        14,
    ) + "  "@ + pad_left(commas_spec(m.cache_write_1h as int), 14) + "  "@ + pad_left(
        commas_spec(m.cache_read as int),
        14,
    ) + "  "@ + pad_left(commas_spec(m.output_tokens as int), 14) + "  "@
}

/// The text of a per-model table row up to its dollar amount.
pub fn counts_row(m: &ModelCounts) -> (r: String)
    requires
        (encode_utf8(m.model@).len() as usize) > 32 ==> is_char_boundary(encode_utf8(m.model@), 31),
    ensures
        r@ == counts_row_spec(m),
{
    let mut v: Vec<char> = Vec::new();
    let name = truncate(m.model.as_str(), 32);
    push_padded_right(&mut v, name.as_str(), 32);
    push_str_chars(&mut v, "  ");
    push_padded_left(&mut v, commas(m.calls).as_str(), 8);
    push_str_chars(&mut v, "  ");
    push_padded_left(&mut v, commas(m.input_tokens).as_str(), 14);
    push_str_chars(&mut v, "  ");
    push_padded_left(&mut v, commas(m.cache_write_5m).as_str(), 14);
    push_str_chars(&mut v, "  ");
    push_padded_left(&mut v, commas(m.cache_write_1h).as_str(), 14);
    push_str_chars(&mut v, "  ");
    push_padded_left(&mut v, commas(m.cache_read).as_str(), 14);
    push_str_chars(&mut v, "  ");
    push_padded_left(&mut v, commas(m.output_tokens).as_str(), 14);
    push_str_chars(&mut v, "  ");
    string_from_chars(&v)
}

/// The rule above and below the report title.
pub open spec fn bar_spec() -> Seq<char> {
    Seq::new(96, |i: int| '═')
}

/// The opening lines of the text report: a blank line, the titled banner,
/// the database, the scope (all projects, or the project and whether
/// subdirectory cwds count), the time window when both ends are known, and
/// a blank line.
pub open spec fn preamble_spec(
    db: Seq<char>,
    all: bool,
    project: Option<Seq<char>>,
    no_subdirs: bool,
    first: Option<Seq<char>>,
    last: Option<Seq<char>>,
) -> Seq<Seq<char>> {
    let head = seq![
        Seq::<char>::empty(),
        bar_spec(),
        "  CCT USAGE REPORT"@,
        bar_spec(),
        "  DB:       "@ + db,
    ];
    let scope = if all {
        seq!["  Scope:    ALL projects"@]
    } else {
        match project {
            Some(p) => seq![
                "  Project:  "@ + p + if no_subdirs {
                    Seq::<char>::empty()
                } else {
                    " (+ subdirectory cwds)"@
                },
            ],
            None => Seq::<Seq<char>>::empty(),
        }
    };
    let window = match (first, last) {
        (Some(a), Some(b)) => seq!["  Window:   "@ + a + " → "@ + b],
        _ => Seq::<Seq<char>>::empty(),
    };
    head + scope + window + seq![Seq::<char>::empty()]
}

fn bar() -> (r: String)
    ensures
        r@ == bar_spec(),
{
    let mut v: Vec<char> = Vec::new();
    let mut i: usize = 0;
    while i < 96
        invariant
            i <= 96,
            v@ == Seq::new(i as nat, |k: int| '═'),
        decreases 96 - i,
    {
        v.push('═');
        i = i + 1;
        assert(v@ =~= Seq::new(i as nat, |k: int| '═'));
    }
    string_from_chars(&v)
}

/// The opening lines of the text report, as `preamble_spec` gives them.
pub fn report_preamble(
    db: &str,
    all: bool,
    project: Option<&str>,
    no_subdirs: bool,
    first: Option<&str>,
    last: Option<&str>,
) -> (lines: Vec<String>)
    ensures
        lines@.map_values(|l: String| l@) == preamble_spec(
            db@,
            all,
            match project {
                Some(p) => Some(p@),
                None => None,
            },
            no_subdirs,
            match first {
                Some(a) => Some(a@),
                None => None,
            },
            match last {
                Some(b) => Some(b@),
                None => None,
            },
        ),
{
    let ghost spec_lines = preamble_spec(
        db@,
        all,
        match project {
            Some(p) => Some(p@),
            None => None,
        },
        no_subdirs,
        match first {
            Some(a) => Some(a@),
            None => None,
        },
        match last {
            Some(b) => Some(b@),
            None => None,
        },
    );
    let mut lines: Vec<String> = Vec::new();
    lines.push(String::new());
    lines.push(bar());
    lines.push(String::from_str("  CCT USAGE REPORT"));
    lines.push(bar());
    let mut db_line = String::from_str("  DB:       ");
    db_line.append(db);
    lines.push(db_line);
    if all {
        lines.push(String::from_str("  Scope:    ALL projects"));
    } else {
        match project {
            Some(p) => {
                let mut l = String::from_str("  Project:  ");
                l.append(p);
                if !no_subdirs {
                    l.append(" (+ subdirectory cwds)");
                }
                proof {
                    reveal_strlit("");
                    assert(l@ =~= "  Project:  "@ + p@ + if no_subdirs {
                        Seq::<char>::empty()
                    } else {
                        " (+ subdirectory cwds)"@
                    });
                }
                lines.push(l);
            },
            None => {},
        }
    }
    match (first, last) {
        (Some(a), Some(b)) => {
            let mut l = String::from_str("  Window:   ");
            l.append(a);
            l.append(" → ");
            l.append(b);
            lines.push(l);
        },
        _ => {},
    }
    lines.push(String::new());
    proof {
        assert(lines@.map_values(|l: String| l@) =~= spec_lines);
    }
    lines
}

// ── Reading rendered timestamps back ─────────────────────────────────────────

/// The rendering of the instant `t` as this report reads timestamps: the
/// first 19 characters of its ISO-8601 text with the `T` made a space.
pub open spec fn iso_read_text(t: int) -> Seq<char> {
    iso_text(t).take(19).update(10, ' ')
}

/// A field of a rendered timestamp: `n` zero-padded to `w` digits, which
/// it fills exactly and parses back from.
proof fn lemma_field(n: nat, w: nat, max: nat)
    requires
        n <= max,
        w == 2 ==> n < 100,
        w == 4 ==> n < 10000,
        w == 2 || w == 4,
    ensures
        pad_zeros(decimal(n), w).len() == w,
        all_digits(pad_zeros(decimal(n), w)),
        parse_unsigned(pad_zeros(decimal(n), w), max) == Some(n),
{
    lemma_padded_parses(n, w, max);
    if w == 2 {
        lemma_decimal_len2(n);
    } else {
        lemma_decimal_len4(n);
    }
}

/// Digits are never a separator.
proof fn lemma_digits_lack(x: Seq<char>, sep: char)
    requires
        all_digits(x),
        !is_digit(sep),
    ensures
        forall|i: int| 0 <= i < x.len() ==> #[trigger] x[i] != sep,
{
    assert forall|i: int| 0 <= i < x.len() implies #[trigger] x[i] != sep by {
        assert(is_digit(x[i]));
    }
}

/// Three fields joined by a separator split back into them.
proof fn lemma_split_three(a: Seq<char>, b: Seq<char>, c: Seq<char>, sep: char)
    requires
        all_digits(a),
        all_digits(b),
        all_digits(c),
        !is_digit(sep),
    ensures
        split_on(a + seq![sep] + (b + seq![sep] + c), sep) == seq![a, b, c],
{
    lemma_digits_lack(a, sep);
    lemma_digits_lack(b, sep);
    lemma_digits_lack(c, sep);
    lemma_split_on_concat(b, c, sep);
    lemma_split_on_concat(a, b + seq![sep] + c, sep);
    lemma_split_on_whole(a, sep);
    lemma_split_on_whole(b, sep);
    lemma_split_on_whole(c, sep);
    assert(seq![a] + (seq![b] + seq![c]) =~= seq![a, b, c]);
}

/// The rendered text of an instant from 1970 through 9999 reads back as
/// its calendar fields.
#[verifier::spinoff_prover]
#[verifier::rlimit(40)]
proof fn lemma_iso_read_fields(t: int)
    requires
        0 <= t < 253402300800,
    ensures
        ({
            let days = t / 86400;
            let rem = t % 86400;
            let (y, m, d) = civil_from_days(days);
            &&& 1970 <= y <= 9999
            &&& 1 <= m <= 12
            &&& 1 <= d <= 31
            &&& timestamp_fields(iso_read_text(t)) == Some(
                (
                    y as nat,
                    m as nat,
                    d as nat,
                    (rem / 3600) as nat,
                    ((rem % 3600) / 60) as nat,
                    (rem % 60) as nat,
                ),
            )
        }),
{
    let days = t / 86400;
    let rem = t % 86400;
    vstd::arithmetic::div_mod::lemma_fundamental_div_mod(t, 86400);
    vstd::arithmetic::div_mod::lemma_fundamental_div_mod(rem, 3600);
    vstd::arithmetic::div_mod::lemma_fundamental_div_mod(rem % 3600, 60);
    law_calendar_round_trip(t);
    lemma_year_in_range(t);
    let (y, m, d) = civil_from_days(days);
    let h = rem / 3600;
    let mi = (rem % 3600) / 60;
    let se = rem % 60;
    assert(0 <= h < 24 && 0 <= mi < 60 && 0 <= se < 60);
    let yt = year_text(y);
    let mt = two_digits(m);
    let dt = two_digits(d);
    let ht = two_digits(h);
    let it = two_digits(mi);
    let st = two_digits(se);
    lemma_field(y as nat, 4, i32::MAX as nat);
    lemma_field(m as nat, 2, u32::MAX as nat);
    lemma_field(d as nat, 2, u32::MAX as nat);
    lemma_field(h as nat, 2, u32::MAX as nat);
    lemma_field(mi as nat, 2, u32::MAX as nat);
    lemma_field(se as nat, 2, u32::MAX as nat);
    let date = yt + seq!['-'] + (mt + seq!['-'] + dt);
    let time = ht + seq![':'] + (it + seq![':'] + st);
    let s = iso_read_text(t);
    assert(iso_text(t) == yt + seq!['-'] + mt + seq!['-'] + dt + seq!['T'] + ht + seq![':'] + it
        + seq![':'] + st + seq!['Z']);
    assert(s =~= date + seq![' '] + time);
    assert(s.len() == 19);
    // The text is ASCII, so its first 19 bytes are the text itself.
    assert forall|i: int| 0 <= i < s.len() implies '\0' <= #[trigger] s[i] <= '\u{7f}' by {
        if i < 4 {
            assert(s[i] == yt[i] && is_digit(yt[i]));
        } else if 5 <= i < 7 {
            assert(s[i] == mt[i - 5] && is_digit(mt[i - 5]));
        } else if 8 <= i < 10 {
            assert(s[i] == dt[i - 8] && is_digit(dt[i - 8]));
        } else if 11 <= i < 13 {
            assert(s[i] == ht[i - 11] && is_digit(ht[i - 11]));
        } else if 14 <= i < 16 {
            assert(s[i] == it[i - 14] && is_digit(it[i - 14]));
        } else if 17 <= i < 19 {
            assert(s[i] == st[i - 17] && is_digit(st[i - 17]));
        }
    }
    assert(is_ascii_chars(s));
    is_ascii_chars_encode_utf8(s);
    let b = encode_utf8(s);
    encode_utf8_valid_utf8(s);
    is_char_boundary_start_end_of_seq(b);
    encode_utf8_decode_utf8(s);
    assert(b.subrange(0, 19) =~= b);
    assert(byte_prefix(s, 19) == Some(s));
    // The first space is the one between date and time.
    assert forall|k: int| 0 <= k < 10 implies #[trigger] s[k] != ' ' by {
        if k < 4 {
            assert(s[k] == yt[k] && is_digit(yt[k]));
        } else if 5 <= k < 7 {
            assert(s[k] == mt[k - 5] && is_digit(mt[k - 5]));
        } else if 8 <= k < 10 {
            assert(s[k] == dt[k - 8] && is_digit(dt[k - 8]));
        }
    }
    lemma_index_of(s, ' ', 10);
    assert(s.take(10) =~= date);
    assert(s.skip(11) =~= time);
    lemma_split_three(yt, mt, dt, '-');
    lemma_split_three(ht, it, st, ':');
}

/// The rendered timestamp never takes the overflowing path of the reader.
proof fn lemma_fields_fit(y: int, m: int, d: int)
    requires
        0 <= y <= 9999,
        1 <= m <= 12,
        1 <= d <= 31,
    ensures
        !civil_overflows(y, m, d),
{
    let y2 = if m <= 2 {
        y - 1
    } else {
        y
    };
    vstd::arithmetic::div_mod::lemma_fundamental_div_mod(y2, 400);
}

/// The epoch renders as `1970-01-01 00:00:00`.
#[verifier::spinoff_prover]
proof fn lemma_epoch_text()
    ensures
        iso_read_text(0) == "1970-01-01 00:00:00"@,
{
    assert(civil_from_days(0) == (1970int, 1int, 1int));
    reveal_strlit("1970-01-01 00:00:00");
    reveal_with_fuel(decimal, 5);
    assert(iso_read_text(0) =~= "1970-01-01 00:00:00"@);
}

/// What `iso_timestamp` renders for an instant from 1970 through 9999, cut
/// to its first 19 characters with the `T` made a space, reads back through
/// the report's timestamp reader as that instant: its span from the epoch's
/// own rendering, `1970-01-01 00:00:00`, is exactly `t` seconds.
#[verifier::spinoff_prover]
pub proof fn law_iso_timestamp_reads_back(t: int)
    requires
        0 <= t < 253402300800,
    ensures
        iso_read_text(0) == "1970-01-01 00:00:00"@,
        timestamp_seconds(iso_read_text(t)) == Some(t),
        !duration_overflows(Some("1970-01-01 00:00:00"@), Some(iso_read_text(t))),
        duration_spec(Some("1970-01-01 00:00:00"@), Some(iso_read_text(t))) == Some(t),
{
    lemma_epoch_text();
    lemma_iso_read_fields(t);
    lemma_iso_read_fields(0);
    law_calendar_round_trip(t);
    law_calendar_round_trip(0);
    let (y, m, d) = civil_from_days(t / 86400);
    lemma_fields_fit(y, m, d);
    lemma_fields_fit(1970, 1, 1);
    assert(civil_from_days(0) == (1970int, 1int, 1int));
    assert(timestamp_seconds(iso_read_text(0)) == Some(0int));
}

} // verus!
