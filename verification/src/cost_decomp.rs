//! Cost decomposition: attributing every billed cent to a hierarchical
//! category tree (bucket → category → subcat → stream → scope), drawn as a
//! flame graph whose node values are USD cents.
//!
//! The DuckDB pipeline computes per-category dollar amounts; this module
//! holds the category routing and the tree builder. Amounts arrive here
//! already rounded to whole cents, so the tree sums without floating drift.
use vstd::prelude::*;

use crate::order::{lemma_str_lt_irreflexive, lemma_str_lt_total, lemma_str_lt_transitive, str_less, str_lt};
use crate::text::{
    chars_eq, chars_of, chars_start_with, has_prefix, i64_text, int_text, replace_chars,
    replace_text, string_from_chars, sub_chars,
};

verus! {

/// The flame-graph bucket a category belongs to: the `tool_result:` /
/// `attachment:` / `cache_bust:` families by prefix, the assistant output
/// categories, the two user-text categories, then single categories, and
/// `other` for anything unrecognised.
pub open spec fn bucket_spec(cat: Seq<char>) -> Seq<char> {
    if has_prefix("tool_result:"@, cat) {
        "tool_result"@
    } else if has_prefix("attachment:"@, cat) {
        "attachment"@
    } else if has_prefix("cache_bust:"@, cat) {
        "cache_bust"@
    } else if cat == "asst_text"@ || cat == "asst_thinking"@ || cat == "asst_tool_use_json"@ {
        "asst_output_persisted"@
    } else if cat == "user_text"@ || cat == "user_text_first_turn"@ {
        "user_text"@
    } else if cat == "system_block_first_turn"@ {
        "system_block_first_turn"@
    } else if cat == "fresh_input_uncategorized"@ {
        "fresh_input"@
    } else if cat == "unaccounted"@ {
        "unaccounted"@
    } else {
        "other"@
    }
}

fn is_literal(c: &Vec<char>, lit: &str) -> (r: bool)
    ensures
        r == (c@ == lit@),
{
    let l = chars_of(lit);
    chars_eq(c, &l)
}

fn starts_with_literal(c: &Vec<char>, lit: &str) -> (r: bool)
    ensures
        r == has_prefix(lit@, c@),
{
    let l = chars_of(lit);
    chars_start_with(c, &l)
}

/// Routes a category to its flame-graph bucket.
pub fn bucket_of(cat: &str) -> (r: &'static str)
    ensures
        r@ == bucket_spec(cat@),
{
    let c = chars_of(cat);
    if starts_with_literal(&c, "tool_result:") {
        "tool_result"
    } else if starts_with_literal(&c, "attachment:") {
        "attachment"
    } else if starts_with_literal(&c, "cache_bust:") {
        "cache_bust"
    } else if is_literal(&c, "asst_text") || is_literal(&c, "asst_thinking") || is_literal(
        &c,
        "asst_tool_use_json",
    ) {
        "asst_output_persisted"
    } else if is_literal(&c, "user_text") || is_literal(&c, "user_text_first_turn") {
        "user_text"
    } else if is_literal(&c, "system_block_first_turn") {
        "system_block_first_turn"
    } else if is_literal(&c, "fresh_input_uncategorized") {
        "fresh_input"
    } else if is_literal(&c, "unaccounted") {
        "unaccounted"
    } else {
        "other"
    }
}

/// A category without its `tool_result:` or `attachment:` prefix.
pub open spec fn short_cat_spec(cat: Seq<char>) -> Seq<char> {
    if has_prefix("tool_result:"@, cat) {
        cat.skip("tool_result:"@.len() as int)
    } else if has_prefix("attachment:"@, cat) {
        cat.skip("attachment:"@.len() as int)
    } else {
        cat
    }
}

/// The category name shown under its bucket: the tool or attachment type
/// for the prefixed families, the category itself otherwise.
pub fn short_cat(cat: &str) -> (r: String)
    ensures
        r@ == short_cat_spec(cat@),
{
    let c = chars_of(cat);
    let tr = chars_of("tool_result:");
    let at = chars_of("attachment:");
    if chars_start_with(&c, &tr) {
        string_from_chars(&sub_chars(&c, tr.len(), c.len()))
    } else if chars_start_with(&c, &at) {
        string_from_chars(&sub_chars(&c, at.len(), c.len()))
    } else {
        String::from_str(cat)
    }
}

/// The three prefixed families are routed by their prefix alone: every
/// `tool_result:…` category goes to `tool_result`, every `attachment:…` to
/// `attachment`, and every `cache_bust:…` to `cache_bust`, whatever follows
/// the prefix.
pub proof fn law_prefix_decides_bucket(cat: Seq<char>)
    ensures
        has_prefix("tool_result:"@, cat) ==> bucket_spec(cat) == "tool_result"@,
        has_prefix("attachment:"@, cat) ==> bucket_spec(cat) == "attachment"@,
        has_prefix("cache_bust:"@, cat) ==> bucket_spec(cat) == "cache_bust"@,
{
    reveal_strlit("tool_result:");
    reveal_strlit("attachment:");
    reveal_strlit("cache_bust:");
    if has_prefix("attachment:"@, cat) {
        assert(cat.take(11)[0] == 'a');
        assert(!has_prefix("tool_result:"@, cat)) by {
            if has_prefix("tool_result:"@, cat) {
                assert(cat.take(12)[0] == "tool_result:"@[0]);
            }
        }
    }
    if has_prefix("cache_bust:"@, cat) {
        assert(cat.take(11)[0] == 'c');
        assert(!has_prefix("tool_result:"@, cat)) by {
            if has_prefix("tool_result:"@, cat) {
                assert(cat.take(12)[0] == "tool_result:"@[0]);
            }
        }
        assert(!has_prefix("attachment:"@, cat)) by {
            if has_prefix("attachment:"@, cat) {
                assert(cat.take(11)[0] == "attachment:"@[0]);
            }
        }
    }
}

/// A tool-result or attachment category is its bucket and its short name
/// joined by `:`, so the first two frames of its path name it exactly.
pub proof fn law_prefixed_category_splits(cat: Seq<char>)
    requires
        has_prefix("tool_result:"@, cat) || has_prefix("attachment:"@, cat),
    ensures
        bucket_spec(cat) + ":"@ + short_cat_spec(cat) == cat,
{
    reveal_strlit("tool_result:");
    reveal_strlit("tool_result");
    reveal_strlit("attachment:");
    reveal_strlit("attachment");
    reveal_strlit(":");
    if has_prefix("tool_result:"@, cat) {
        assert("tool_result"@ + ":"@ =~= "tool_result:"@);
        assert(cat =~= cat.take(12) + cat.skip(12));
        assert(bucket_spec(cat) + ":"@ + short_cat_spec(cat) =~= cat);
    } else {
        assert("attachment"@ + ":"@ =~= "attachment:"@);
        assert(cat =~= cat.take(11) + cat.skip(11));
        assert(bucket_spec(cat) + ":"@ + short_cat_spec(cat) =~= cat);
    }
}

/// A path of frames as plain values.
pub open spec fn strings_view(v: Seq<String>) -> Seq<Seq<char>> {
    v.map_values(|s: String| s@)
}

/// The flame-graph path of an amount: bucket, category, the subcategory when
/// there is one, the billing stream, and whether a subagent or the main
/// session spent it.
pub open spec fn path_spec(cat: Seq<char>, subcat: Seq<char>, is_sub: bool, stream: Seq<char>) -> Seq<
    Seq<char>,
> {
    let head = seq![bucket_spec(cat), short_cat_spec(cat)];
    let mid = if subcat.len() == 0 {
        head
    } else {
        head.push(subcat)
    };
    mid.push(stream).push(
        if is_sub {
            "subagent"@
        } else {
            "main"@
        },
    )
}

/// The flame-graph path of an amount spent on `cat` (and `subcat`, unless it
/// is empty) through `stream`; the amount rides along unchanged.
pub fn make_path<A>(cat: &str, subcat: &str, is_sub: bool, stream: &str, cost: A) -> (row: (
    Vec<String>,
    A,
))
    ensures
        row.1 == cost,
        strings_view(row.0@) == path_spec(cat@, subcat@, is_sub, stream@),
{
    let mut path: Vec<String> = Vec::new();
    path.push(String::from_str(bucket_of(cat)));
    path.push(short_cat(cat));
    if !subcat.is_empty() {
        path.push(String::from_str(subcat));
    }
    path.push(String::from_str(stream));
    let scope = if is_sub {
        "subagent"
    } else {
        "main"
    };
    path.push(String::from_str(scope));
    proof {
        assert(strings_view(path@) =~= path_spec(cat@, subcat@, is_sub, stream@));
    }
    (path, cost)
}

/// An amount attributed to a category (and subcategory) of one billing
/// stream, for the main session or for subagents, in whole cents.
pub struct CategoryCost {
    pub category: String,
    pub subcat: String,
    pub is_subagent: bool,
    pub cents: i64,
}

/// An amount attributed to a category with no subcategory, in whole cents.
pub struct StreamCost {
    pub category: String,
    pub is_subagent: bool,
    pub cents: i64,
}

/// A flat row of the flame graph as plain values: its path and its amount.
pub open spec fn row_view(row: (Vec<String>, i64)) -> (Seq<Seq<char>>, int) {
    (strings_view(row.0@), row.1 as int)
}

pub open spec fn rows_view(rows: Seq<(Vec<String>, i64)>) -> Seq<(Seq<Seq<char>>, int)> {
    rows.map_values(|r: (Vec<String>, i64)| row_view(r))
}

/// The rows of the amounts in `costs` that are above zero, in order, each
/// under `stream`.
pub open spec fn stream_rows(costs: Seq<StreamCost>, stream: Seq<char>) -> Seq<
    (Seq<Seq<char>>, int),
>
    decreases costs.len(),
{
    if costs.len() == 0 {
        seq![]
    } else {
        let rest = stream_rows(costs.drop_last(), stream);
        let c = costs.last();
        if c.cents > 0 {
            rest.push((path_spec(c.category@, seq![], c.is_subagent, stream), c.cents as int))
        } else {
            rest
        }
    }
}

/// The same for amounts that carry a subcategory.
pub open spec fn category_rows(costs: Seq<CategoryCost>, stream: Seq<char>) -> Seq<
    (Seq<Seq<char>>, int),
>
    decreases costs.len(),
{
    if costs.len() == 0 {
        seq![]
    } else {
        let rest = category_rows(costs.drop_last(), stream);
        let c = costs.last();
        if c.cents > 0 {
            rest.push((path_spec(c.category@, c.subcat@, c.is_subagent, stream), c.cents as int))
        } else {
            rest
        }
    }
}

fn push_stream_rows(rows: &mut Vec<(Vec<String>, i64)>, costs: &Vec<StreamCost>, stream: &str)
    ensures
        rows_view(final(rows)@) == rows_view(old(rows)@) + stream_rows(costs@, stream@),
{
    let ghost start = rows_view(rows@);
    let mut i: usize = 0;
    while i < costs.len()
        invariant
            i <= costs@.len(),
            rows_view(rows@) == start + stream_rows(costs@.take(i as int), stream@),
        decreases costs@.len() - i,
    {
        let c = &costs[i];
        proof {
            assert(costs@.take(i + 1).drop_last() =~= costs@.take(i as int));
        }
        if c.cents > 0 {
            let row = make_path(c.category.as_str(), "", c.is_subagent, stream, c.cents);
            proof {
                reveal_strlit("");
            }
            let ghost before = rows@;
            let ghost r = row;
            rows.push(row);
            proof {
                assert(rows_view(rows@) =~= rows_view(before).push(row_view(r)));
                assert(costs@.take(i + 1).last() == costs@[i as int]);
                assert(rows_view(rows@) =~= start + stream_rows(costs@.take(i + 1), stream@));
            }
        }
        i = i + 1;
    }
    proof {
        assert(costs@.take(i as int) =~= costs@);
    }
}

fn push_category_rows(rows: &mut Vec<(Vec<String>, i64)>, costs: &Vec<CategoryCost>, stream: &str)
    ensures
        rows_view(final(rows)@) == rows_view(old(rows)@) + category_rows(costs@, stream@),
{
    let ghost start = rows_view(rows@);
    let mut i: usize = 0;
    while i < costs.len()
        invariant
            i <= costs@.len(),
            rows_view(rows@) == start + category_rows(costs@.take(i as int), stream@),
        decreases costs@.len() - i,
    {
        let c = &costs[i];
        proof {
            assert(costs@.take(i + 1).drop_last() =~= costs@.take(i as int));
        }
        if c.cents > 0 {
            let row = make_path(c.category.as_str(), c.subcat.as_str(), c.is_subagent, stream, c.cents);
            let ghost before = rows@;
            let ghost r = row;
            rows.push(row);
            proof {
                assert(rows_view(rows@) =~= rows_view(before).push(row_view(r)));
                assert(costs@.take(i + 1).last() == costs@[i as int]);
                assert(rows_view(rows@) =~= start + category_rows(costs@.take(i + 1), stream@));
            }
        }
        i = i + 1;
    }
    proof {
        assert(costs@.take(i as int) =~= costs@);
    }
}

/// The flat rows of the flame graph, in the order output write, cache
/// creation, cache read, fresh input; amounts of zero or less are left out.
pub fn collect_rows(
    cc: &Vec<CategoryCost>,
    cr: &Vec<CategoryCost>,
    output_write: &Vec<StreamCost>,
    fresh: &Vec<StreamCost>,
) -> (rows: Vec<(Vec<String>, i64)>)
    ensures
        rows_view(rows@) == stream_rows(output_write@, "output_write"@) + category_rows(
            cc@,
            "cache_create"@,
        ) + category_rows(cr@, "cache_read"@) + stream_rows(fresh@, "fresh_input"@),
{
    let mut rows: Vec<(Vec<String>, i64)> = Vec::new();
    proof {
        assert(rows_view(rows@) =~= seq![]);
    }
    push_stream_rows(&mut rows, output_write, "output_write");
    push_category_rows(&mut rows, cc, "cache_create");
    push_category_rows(&mut rows, cr, "cache_read");
    push_stream_rows(&mut rows, fresh, "fresh_input");
    proof {
        assert(rows_view(rows@) =~= stream_rows(output_write@, "output_write"@) + category_rows(
            cc@,
            "cache_create"@,
        ) + category_rows(cr@, "cache_read"@) + stream_rows(fresh@, "fresh_input"@));
    }
    rows
}

/// A node of the flame graph: a frame name, the cents spent at or below
/// it, and its child frames in ascending name order.
pub struct FlameNode {
    pub name: String,
    pub value: i64,
    pub children: Vec<FlameNode>,
}

/// `path` begins with the frames of `prefix`.
pub open spec fn extends(path: Seq<Seq<char>>, prefix: Seq<Seq<char>>) -> bool {
    &&& prefix.len() <= path.len()
    &&& forall|k: int| 0 <= k < prefix.len() ==> path[k] == prefix[k]
}

/// The row counts toward the node at `prefix`: its amount is above zero and
/// its path runs through that node.
pub open spec fn under(row: (Seq<Seq<char>>, int), prefix: Seq<Seq<char>>) -> bool {
    row.1 > 0 && extends(row.0, prefix)
}

/// The cents of the rows that run through the node at `prefix`.
pub open spec fn subtree_cents(rows: Seq<(Seq<Seq<char>>, int)>, prefix: Seq<Seq<char>>) -> int
    decreases rows.len(),
{
    if rows.len() == 0 {
        0
    } else {
        subtree_cents(rows.drop_last(), prefix) + if under(rows.last(), prefix) {
            rows.last().1
        } else {
            0
        }
    }
}

/// The cents of the rows that end exactly at the node at `prefix`.
pub open spec fn exact_cents(rows: Seq<(Seq<Seq<char>>, int)>, prefix: Seq<Seq<char>>) -> int
    decreases rows.len(),
{
    if rows.len() == 0 {
        0
    } else {
        exact_cents(rows.drop_last(), prefix) + if under(rows.last(), prefix)
            && rows.last().0.len() == prefix.len() {
            rows.last().1
        } else {
            0
        }
    }
}

/// Some row runs through the node at `prefix` and on to the child frame `f`.
pub open spec fn is_next_frame(
    rows: Seq<(Seq<Seq<char>>, int)>,
    prefix: Seq<Seq<char>>,
    f: Seq<char>,
) -> bool {
    exists|i: int| 0 <= i < rows.len() && #[trigger] next_frame_of(rows[i], prefix, f)
}

pub open spec fn next_frame_of(row: (Seq<Seq<char>>, int), prefix: Seq<Seq<char>>, f: Seq<char>) -> bool {
    under(row, prefix) && row.0.len() > prefix.len() && row.0[prefix.len() as int] == f
}

proof fn lemma_subtree_cents_bounds(rows: Seq<(Seq<Seq<char>>, int)>, prefix: Seq<Seq<char>>, n: int)
    requires
        0 <= n <= rows.len(),
    ensures
        0 <= subtree_cents(rows.take(n), prefix) <= subtree_cents(rows, prefix),
        subtree_cents(rows, prefix) <= subtree_cents(rows, seq![]),
    decreases rows.len(),
{
    if rows.len() > 0 {
        if n == rows.len() {
            assert(rows.take(n) =~= rows);
            lemma_subtree_cents_bounds(rows.drop_last(), prefix, 0);
        } else {
            assert(rows.drop_last().take(n) =~= rows.take(n));
            lemma_subtree_cents_bounds(rows.drop_last(), prefix, n);
        }
    } else {
        assert(rows.take(n) =~= rows);
    }
}

fn path_extends(path: &Vec<String>, prefix: &Vec<String>) -> (r: bool)
    ensures
        r == extends(strings_view(path@), strings_view(prefix@)),
{
    if prefix.len() > path.len() {
        return false;
    }
    let mut k: usize = 0;
    while k < prefix.len()
        invariant
            prefix@.len() <= path@.len(),
            k <= prefix@.len(),
            forall|j: int| 0 <= j < k ==> path@[j]@ == prefix@[j]@,
        decreases prefix@.len() - k,
    {
        if path[k] != prefix[k] {
            proof {
                assert(strings_view(path@)[k as int] != strings_view(prefix@)[k as int]);
            }
            return false;
        }
        k = k + 1;
    }
    true
}

/// The cents of the rows that run through the node at `prefix`.
fn frame_total(rows: &Vec<(Vec<String>, i64)>, prefix: &Vec<String>) -> (t: i64)
    requires
        subtree_cents(rows_view(rows@), seq![]) <= i64::MAX,
    ensures
        t == subtree_cents(rows_view(rows@), strings_view(prefix@)),
{
    let ghost rv = rows_view(rows@);
    let ghost p = strings_view(prefix@);
    let mut t: i64 = 0;
    let mut i: usize = 0;
    while i < rows.len()
        invariant
            i <= rows@.len(),
            rv == rows_view(rows@),
            p == strings_view(prefix@),
            subtree_cents(rv, seq![]) <= i64::MAX,
            t == subtree_cents(rv.take(i as int), p),
        decreases rows@.len() - i,
    {
        proof {
            assert(rv.take(i + 1).drop_last() =~= rv.take(i as int));
            lemma_subtree_cents_bounds(rv, p, i + 1);
        }
        if rows[i].1 > 0 && path_extends(&rows[i].0, prefix) {
            t = t + rows[i].1;
        }
        i = i + 1;
    }
    proof {
        assert(rv.take(i as int) =~= rv);
    }
    t
}

/// Names in strictly ascending order, so each occurs once.
pub open spec fn strictly_ascending(names: Seq<Seq<char>>) -> bool {
    forall|i: int, j: int| 0 <= i < j < names.len() ==> str_lt(names[i], names[j])
}

/// Adds `f` to an ascending list of names unless it is there already.
fn insert_name(fs: &mut Vec<String>, f: &String)
    requires
        strictly_ascending(strings_view(old(fs)@)),
    ensures
        strictly_ascending(strings_view(final(fs)@)),
        forall|g: Seq<char>|
            strings_view(final(fs)@).contains(g) <==> (strings_view(old(fs)@).contains(g) || g
                == f@),
{
    let ghost before = strings_view(fs@);
    let mut p: usize = 0;
    while p < fs.len() && str_less(fs[p].as_str(), f.as_str())
        invariant
            p <= fs@.len(),
            before == strings_view(fs@),
            forall|j: int| 0 <= j < p ==> str_lt(#[trigger] before[j], f@),
        decreases fs@.len() - p,
    {
        p = p + 1;
    }
    if p < fs.len() && fs[p] == *f {
        proof {
            assert(before[p as int] == f@);
        }
        return ;
    }
    proof {
        if p < fs@.len() {
            lemma_str_lt_total(before[p as int], f@);
        }
    }
    fs.insert(p, f.clone());
    proof {
        let after = strings_view(fs@);
        assert(after =~= before.insert(p as int, f@));
        assert forall|i: int, j: int| 0 <= i < j < after.len() implies str_lt(after[i], after[j]) by {
            if j == p {
                assert(after[i] == before[i]);
            } else if i == p {
                assert(after[j] == before[j - 1]);
                if j - 1 > p {
                    lemma_str_lt_transitive(f@, before[p as int], before[j - 1]);
                }
            } else if i < p && j > p {
                lemma_str_lt_transitive(before[i], f@, before[p as int]);
                if j - 1 > p {
                    lemma_str_lt_transitive(before[i], before[p as int], before[j - 1]);
                }
            }
        }
        assert forall|g: Seq<char>| after.contains(g) <==> (before.contains(g) || g == f@) by {
            if after.contains(g) {
                let k = choose|k: int| 0 <= k < after.len() && after[k] == g;
                if k < p {
                    assert(before[k] == g);
                } else if k > p {
                    assert(before[k - 1] == g);
                }
            }
            if before.contains(g) {
                let k = choose|k: int| 0 <= k < before.len() && before[k] == g;
                if k < p {
                    assert(after[k] == g);
                } else {
                    assert(after[k + 1] == g);
                }
            }
            if g == f@ {
                assert(after[p as int] == g);
            }
        }
    }
}

proof fn lemma_next_frame_step(
    rv: Seq<(Seq<Seq<char>>, int)>,
    p: Seq<Seq<char>>,
    i: int,
    g: Seq<char>,
)
    requires
        0 <= i < rv.len(),
    ensures
        is_next_frame(rv.take(i + 1), p, g) <==> (is_next_frame(rv.take(i), p, g)
            || next_frame_of(rv[i], p, g)),
{
    if is_next_frame(rv.take(i + 1), p, g) {
        let j = choose|j: int| 0 <= j < i + 1 && #[trigger] next_frame_of(rv.take(i + 1)[j], p, g);
        if j < i {
            assert(rv.take(i)[j] == rv.take(i + 1)[j]);
        }
    }
    if is_next_frame(rv.take(i), p, g) {
        let j = choose|j: int| 0 <= j < i && #[trigger] next_frame_of(rv.take(i)[j], p, g);
        assert(rv.take(i + 1)[j] == rv.take(i)[j]);
    }
    if next_frame_of(rv[i], p, g) {
        assert(rv.take(i + 1)[i] == rv[i]);
    }
}

/// The names of the child frames below the node at `prefix`, ascending.
fn next_frames(rows: &Vec<(Vec<String>, i64)>, prefix: &Vec<String>) -> (fs: Vec<String>)
    ensures
        strictly_ascending(strings_view(fs@)),
        forall|g: Seq<char>|
            strings_view(fs@).contains(g) <==> is_next_frame(
                rows_view(rows@),
                strings_view(prefix@),
                g,
            ),
{
    let ghost rv = rows_view(rows@);
    let ghost p = strings_view(prefix@);
    let mut fs: Vec<String> = Vec::new();
    let mut i: usize = 0;
    while i < rows.len()
        invariant
            i <= rows@.len(),
            rv == rows_view(rows@),
            p == strings_view(prefix@),
            strictly_ascending(strings_view(fs@)),
            forall|g: Seq<char>|
                strings_view(fs@).contains(g) <==> is_next_frame(rv.take(i as int), p, g),
        decreases rows@.len() - i,
    {
        let row = &rows[i];
        if row.1 > 0 && row.0.len() > prefix.len() && path_extends(&row.0, prefix) {
            let f = &row.0[prefix.len()];
            proof {
                assert(rv[i as int] == row_view(*row));
                assert(next_frame_of(rv[i as int], p, f@));
            }
            insert_name(&mut fs, f);
            proof {
                assert forall|g: Seq<char>|
                    strings_view(fs@).contains(g) <==> is_next_frame(
                        rv.take(i + 1),
                        p,
                        g,
                    ) by {
                    lemma_next_frame_step(rv, p, i as int, g);
                    if g == f@ {
                    }
                }
            }
        } else {
            proof {
                assert(rv[i as int] == row_view(*row));
                assert forall|g: Seq<char>|
                    strings_view(fs@).contains(g) <==> is_next_frame(
                        rv.take(i + 1),
                        p,
                        g,
                    ) by {
                    lemma_next_frame_step(rv, p, i as int, g);
                }
            }
        }
        i = i + 1;
    }
    proof {
        assert(rv.take(i as int) =~= rv);
    }
    fs
}

/// The names of a list of nodes, as plain values.
pub open spec fn child_names(cs: Seq<FlameNode>) -> Seq<Seq<char>> {
    cs.map_values(|c: FlameNode| c.name@)
}

/// `n` is the flame-graph node at `prefix` for `rows`: it holds the cents of
/// the rows that run through it, and its children are exactly the frames
/// those rows continue with, once each, in ascending order, each the node of
/// its own extended path.
pub open spec fn node_ok(n: FlameNode, prefix: Seq<Seq<char>>, rows: Seq<(Seq<Seq<char>>, int)>) -> bool
    decreases n,
{
    &&& n.value == subtree_cents(rows, prefix)
    &&& strictly_ascending(child_names(n.children@))
    &&& forall|g: Seq<char>| #[trigger]
        child_names(n.children@).contains(g) <==> is_next_frame(rows, prefix, g)
    &&& children_ok(n.children@, prefix, rows)
}

/// Each node of `cs` is the node of its name below `prefix`.
pub open spec fn children_ok(
    cs: Seq<FlameNode>,
    prefix: Seq<Seq<char>>,
    rows: Seq<(Seq<Seq<char>>, int)>,
) -> bool
    decreases cs,
{
    if cs.len() == 0 {
        true
    } else {
        &&& children_ok(cs.drop_last(), prefix, rows)
        &&& node_ok(cs.last(), prefix.push(cs.last().name@), rows)
    }
}

/// Every path has at most `max_len` frames.
pub open spec fn paths_within(rows: Seq<(Vec<String>, i64)>, max_len: int) -> bool {
    forall|i: int| 0 <= i < rows.len() ==> #[trigger] rows[i].0@.len() <= max_len
}

proof fn lemma_children_ok_push(
    cs: Seq<FlameNode>,
    c: FlameNode,
    prefix: Seq<Seq<char>>,
    rows: Seq<(Seq<Seq<char>>, int)>,
)
    requires
        children_ok(cs, prefix, rows),
        node_ok(c, prefix.push(c.name@), rows),
    ensures
        children_ok(cs.push(c), prefix, rows),
{
    assert(cs.push(c).drop_last() =~= cs);
}

fn build_node(rows: &Vec<(Vec<String>, i64)>, prefix: Vec<String>, name: String, max_len: usize) -> (n:
    FlameNode)
    requires
        subtree_cents(rows_view(rows@), seq![]) <= i64::MAX,
        prefix@.len() <= max_len,
        paths_within(rows@, max_len as int),
    ensures
        n.name@ == name@,
        node_ok(n, strings_view(prefix@), rows_view(rows@)),
    decreases max_len - prefix@.len(),
{
    let ghost rv = rows_view(rows@);
    let ghost p = strings_view(prefix@);
    let value = frame_total(rows, &prefix);
    let frames = next_frames(rows, &prefix);
    let ghost names = strings_view(frames@);
    let mut children: Vec<FlameNode> = Vec::new();
    let mut k: usize = 0;
    proof {
        assert(child_names(children@) =~= names.take(0));
    }
    while k < frames.len()
        invariant
            k <= frames@.len(),
            rv == rows_view(rows@),
            p == strings_view(prefix@),
            names == strings_view(frames@),
            subtree_cents(rv, seq![]) <= i64::MAX,
            prefix@.len() <= max_len,
            paths_within(rows@, max_len as int),
            forall|g: Seq<char>| names.contains(g) <==> is_next_frame(rv, p, g),
            child_names(children@) == names.take(k as int),
            children_ok(children@, p, rv),
        decreases frames@.len() - k,
    {
        proof {
            assert(names.contains(names[k as int]));
            let j = choose|j: int| 0 <= j < rv.len() && #[trigger] next_frame_of(rv[j], p, names[k as int]);
            assert(rv[j] == row_view(rows@[j]));
            assert(rows@[j].0@.len() <= max_len);
        }
        let mut sub = prefix.clone();
        proof {
            assert forall|i: int| 0 <= i < sub@.len() implies sub@[i] == prefix@[i] by {
                assert(cloned::<String>(prefix[i], sub[i]));
            }
            assert(sub@ =~= prefix@);
        }
        let f = frames[k].clone();
        sub.push(f);
        proof {
            assert(strings_view(sub@) =~= p.push(names[k as int]));
        }
        let nm = frames[k].clone();
        let child = build_node(rows, sub, nm, max_len);
        let ghost before = children@;
        let ghost c = child;
        children.push(child);
        proof {
            lemma_children_ok_push(before, c, p, rv);
            assert(c.name@ == names[k as int]);
            assert(child_names(children@) =~= child_names(before).push(c.name@));
            assert(child_names(children@) =~= names.take(k + 1));
        }
        k = k + 1;
    }
    proof {
        assert(names.take(k as int) =~= names);
    }
    FlameNode { name, value, children }
}

/// The cents of all rows above zero fit in an `i64`, so the tree can hold
/// them.
pub fn tree_total_fits(rows: &Vec<(Vec<String>, i64)>) -> (r: bool)
    ensures
        r == (subtree_cents(rows_view(rows@), seq![]) <= i64::MAX),
{
    let ghost rv = rows_view(rows@);
    let ghost top: Seq<Seq<char>> = seq![];
    let mut t: i64 = 0;
    let mut i: usize = 0;
    while i < rows.len()
        invariant
            i <= rows@.len(),
            rv == rows_view(rows@),
            top.len() == 0,
            0 <= t,
            t == subtree_cents(rv.take(i as int), top),
        decreases rows@.len() - i,
    {
        proof {
            assert(rv.take(i + 1).drop_last() =~= rv.take(i as int));
            assert(rv.take(i + 1).last() == rv[i as int]);
            assert(rv[i as int] == row_view(rows@[i as int]));
            assert(extends(rv[i as int].0, top));
        }
        if rows[i].1 > 0 {
            if rows[i].1 > i64::MAX - t {
                proof {
                    lemma_subtree_cents_bounds(rv, top, i + 1);
                }
                return false;
            }
            t = t + rows[i].1;
        }
        i = i + 1;
    }
    proof {
        assert(rv.take(i as int) =~= rv);
    }
    true
}

/// The flame graph of `rows`: a root named `all` holding the cents of every
/// row above zero, and below it one node per path prefix, children in
/// ascending name order.
pub fn build_tree(rows: &Vec<(Vec<String>, i64)>) -> (root: FlameNode)
    requires
        subtree_cents(rows_view(rows@), seq![]) <= i64::MAX,
    ensures
        root.name@ == "all"@,
        root.value == subtree_cents(rows_view(rows@), seq![]),
        node_ok(root, seq![], rows_view(rows@)),
{
    let mut max_len: usize = 0;
    let mut i: usize = 0;
    while i < rows.len()
        invariant
            i <= rows@.len(),
            forall|j: int| 0 <= j < i ==> #[trigger] rows@[j].0@.len() <= max_len,
        decreases rows@.len() - i,
    {
        if rows[i].0.len() > max_len {
            max_len = rows[i].0.len();
        }
        i = i + 1;
    }
    let prefix: Vec<String> = Vec::new();
    proof {
        assert(strings_view(prefix@) =~= seq![]);
    }
    build_node(rows, prefix, String::from_str("all"), max_len)
}

/// The cents held by a list of nodes together.
pub open spec fn values_sum(cs: Seq<FlameNode>) -> int
    decreases cs.len(),
{
    if cs.len() == 0 {
        0
    } else {
        values_sum(cs.drop_last()) + cs.last().value
    }
}

/// The cents of the rows that run through each of the child frames `names`
/// below `prefix`, together.
pub open spec fn frames_cents(
    rows: Seq<(Seq<Seq<char>>, int)>,
    prefix: Seq<Seq<char>>,
    names: Seq<Seq<char>>,
) -> int
    decreases names.len(),
{
    if names.len() == 0 {
        0
    } else {
        frames_cents(rows, prefix, names.drop_last()) + subtree_cents(
            rows,
            prefix.push(names.last()),
        )
    }
}

proof fn lemma_children_values(cs: Seq<FlameNode>, prefix: Seq<Seq<char>>, rows: Seq<(Seq<Seq<char>>, int)>)
    requires
        children_ok(cs, prefix, rows),
    ensures
        values_sum(cs) == frames_cents(rows, prefix, child_names(cs)),
    decreases cs.len(),
{
    if cs.len() > 0 {
        lemma_children_values(cs.drop_last(), prefix, rows);
        assert(child_names(cs).drop_last() =~= child_names(cs.drop_last()));
        let c = cs.last();
        assert(node_ok(c, prefix.push(c.name@), rows));
        assert(c.value == subtree_cents(rows, prefix.push(c.name@)));
        assert(child_names(cs).last() == c.name@);
    }
}

proof fn lemma_frames_cents_no_rows(
    rows: Seq<(Seq<Seq<char>>, int)>,
    prefix: Seq<Seq<char>>,
    names: Seq<Seq<char>>,
)
    requires
        rows.len() == 0,
    ensures
        frames_cents(rows, prefix, names) == 0,
    decreases names.len(),
{
    if names.len() > 0 {
        lemma_frames_cents_no_rows(rows, prefix, names.drop_last());
    }
}

proof fn lemma_extends_push(path: Seq<Seq<char>>, prefix: Seq<Seq<char>>, f: Seq<char>)
    ensures
        extends(path, prefix.push(f)) <==> (extends(path, prefix) && path.len() > prefix.len()
            && path[prefix.len() as int] == f),
{
    if extends(path, prefix) && path.len() > prefix.len() && path[prefix.len() as int] == f {
        assert forall|k: int| 0 <= k < prefix.push(f).len() implies path[k] == prefix.push(f)[k] by {
        }
    }
    if extends(path, prefix.push(f)) {
        assert(path[prefix.len() as int] == prefix.push(f)[prefix.len() as int]);
        assert forall|k: int| 0 <= k < prefix.len() implies path[k] == prefix[k] by {
            assert(path[k] == prefix.push(f)[k]);
        }
    }
}

proof fn lemma_frames_cents_step(
    rows: Seq<(Seq<Seq<char>>, int)>,
    prefix: Seq<Seq<char>>,
    names: Seq<Seq<char>>,
)
    requires
        rows.len() > 0,
        strictly_ascending(names),
    ensures
        frames_cents(rows, prefix, names) == frames_cents(rows.drop_last(), prefix, names) + if under(
            rows.last(),
            prefix,
        ) && rows.last().0.len() > prefix.len() && names.contains(
            rows.last().0[prefix.len() as int],
        ) {
            rows.last().1
        } else {
            0
        },
    decreases names.len(),
{
    if names.len() > 0 {
        let r = rows.last();
        let l = names.last();
        let rest = names.drop_last();
        assert forall|i: int, j: int| 0 <= i < j < rest.len() implies str_lt(rest[i], rest[j]) by {
            assert(rest[i] == names[i] && rest[j] == names[j]);
        }
        lemma_frames_cents_step(rows, prefix, rest);
        lemma_extends_push(r.0, prefix, l);
        if r.0.len() > prefix.len() {
            let fr = r.0[prefix.len() as int];
            if rest.contains(fr) {
                let k = choose|k: int| 0 <= k < rest.len() && rest[k] == fr;
                assert(names[k] == fr);
                if fr == l {
                    assert(str_lt(names[k], names[names.len() - 1]));
                    lemma_str_lt_irreflexive(fr);
                }
            }
            if names.contains(fr) && fr != l {
                let k = choose|k: int| 0 <= k < names.len() && names[k] == fr;
                assert(rest[k] == fr);
            }
            if fr == l {
                assert(names[names.len() - 1] == fr);
            }
        }
    }
}

proof fn lemma_subtree_split(
    rows: Seq<(Seq<Seq<char>>, int)>,
    prefix: Seq<Seq<char>>,
    names: Seq<Seq<char>>,
)
    requires
        strictly_ascending(names),
        forall|g: Seq<char>| is_next_frame(rows, prefix, g) ==> names.contains(g),
    ensures
        subtree_cents(rows, prefix) == exact_cents(rows, prefix) + frames_cents(rows, prefix, names),
    decreases rows.len(),
{
    if rows.len() == 0 {
        lemma_frames_cents_no_rows(rows, prefix, names);
    } else {
        let rest = rows.drop_last();
        let r = rows.last();
        assert forall|g: Seq<char>| is_next_frame(rest, prefix, g) implies names.contains(g) by {
            let j = choose|j: int| 0 <= j < rest.len() && #[trigger] next_frame_of(rest[j], prefix, g);
            assert(rows[j] == rest[j]);
            assert(next_frame_of(rows[j], prefix, g));
        }
        lemma_subtree_split(rest, prefix, names);
        lemma_frames_cents_step(rows, prefix, names);
        if under(r, prefix) && r.0.len() > prefix.len() {
            let fr = r.0[prefix.len() as int];
            assert(next_frame_of(rows[rows.len() - 1], prefix, fr));
            assert(is_next_frame(rows, prefix, fr));
        }
    }
}

/// Every node of the flame graph is worth what its children are worth
/// together with the rows that end exactly at it; with paths that all end at
/// the same depth, a parent is worth exactly the sum of its children.
pub proof fn law_node_value_is_children_plus_own(
    n: FlameNode,
    prefix: Seq<Seq<char>>,
    rows: Seq<(Seq<Seq<char>>, int)>,
)
    requires
        node_ok(n, prefix, rows),
    ensures
        n.value == values_sum(n.children@) + exact_cents(rows, prefix),
{
    let names = child_names(n.children@);
    lemma_children_values(n.children@, prefix, rows);
    assert forall|g: Seq<char>| is_next_frame(rows, prefix, g) implies names.contains(g) by {
    }
    lemma_subtree_split(rows, prefix, names);
}

/// A pipeline statement for a window of `days` days: every `{days}` in the
/// template becomes the number.
pub fn fill_days(template: &str, days: i32) -> (r: String)
    ensures
        r@ == replace_text(template@, "{days}"@, int_text(days as int)),
{
    proof {
        reveal_strlit("{days}");
    }
    let t = chars_of(template);
    let pat = chars_of("{days}");
    let n = i64_text(days as i64);
    string_from_chars(&replace_chars(&t, &pat, &n))
}

} // verus!
