//! The per-turn and per-subagent records of `cct extract sessions`, built
//! from the database's row values. The document is JSON; the library builds
//! it as a `Json` tree and the binary prints it.
use vstd::prelude::*;

verus! {

/// A JSON value of the session document. An object's fields are kept in
/// the order they are added.
#[derive(Debug)]
pub enum Json {
    Null,
    Bool(bool),
    Int(i64),
    Str(String),
    /// JSON text the database produced (a `json_group_*` column), carried
    /// as text; it reads as `null` if it does not parse.
    Text(String),
    Array(Vec<Json>),
    Object(Vec<JsonField>),
}

/// A named field of a JSON object.
#[derive(Debug)]
pub struct JsonField {
    pub name: String,
    pub value: Json,
}

/// A string, or `null` when absent.
pub open spec fn opt_str_json(o: Option<String>) -> Json {
    match o {
        Some(s) => Json::Str(s),
        None => Json::Null,
    }
}

/// An integer, or `null` when absent.
pub open spec fn opt_int_json(o: Option<i64>) -> Json {
    match o {
        Some(n) => Json::Int(n),
        None => Json::Null,
    }
}

/// A count, zero when absent.
pub open spec fn count_json(o: Option<i64>) -> Json {
    Json::Int(
        match o {
            Some(n) => n,
            None => 0,
        },
    )
}

/// The field `f` is named `k` and holds `v`.
pub open spec fn field_is(f: JsonField, k: Seq<char>, v: Json) -> bool {
    f.name@ == k && f.value == v
}

/// The token counts of a turn or a subagent, each zero when absent.
pub open spec fn tokens_ok(j: Json, input: Option<i64>, cache_read: Option<i64>, cache_write: Option<i64>, output: Option<i64>) -> bool {
    &&& j is Object
    &&& j->Object_0@.len() == 4
    &&& field_is(j->Object_0@[0], "input"@, count_json(input))
    &&& field_is(j->Object_0@[1], "cache_read"@, count_json(cache_read))
    &&& field_is(j->Object_0@[2], "cache_write"@, count_json(cache_write))
    &&& field_is(j->Object_0@[3], "output"@, count_json(output))
}

fn str_or_null(o: Option<String>) -> (j: Json)
    ensures
        j == opt_str_json(o),
{
    match o {
        Some(s) => Json::Str(s),
        None => Json::Null,
    }
}

fn int_or_null(o: Option<i64>) -> (j: Json)
    ensures
        j == opt_int_json(o),
{
    match o {
        Some(n) => Json::Int(n),
        None => Json::Null,
    }
}

fn count(o: Option<i64>) -> (j: Json)
    ensures
        j == count_json(o),
{
    match o {
        Some(n) => Json::Int(n),
        None => Json::Int(0),
    }
}

fn field(k: &str, v: Json) -> (f: JsonField)
    ensures
        field_is(f, k@, v),
{
    JsonField { name: String::from_str(k), value: v }
}

fn tokens(input: Option<i64>, cache_read: Option<i64>, cache_write: Option<i64>, output: Option<i64>) -> (j: Json)
    ensures
        tokens_ok(j, input, cache_read, cache_write, output),
{
    let mut t: Vec<JsonField> = Vec::new();
    t.push(field("input", count(input)));
    t.push(field("cache_read", count(cache_read)));
    t.push(field("cache_write", count(cache_write)));
    t.push(field("output", count(output)));
    Json::Object(t)
}

/// One row of the turn query: a turn of a session with its aggregates.
pub struct TurnRow {
    pub index: i64,
    pub uuid: Option<String>,
    pub timestamp: Option<String>,
    pub user_text: Option<String>,
    pub duration_seconds: Option<i64>,
    pub interrupted: bool,
    pub api_calls: i64,
    pub model: Option<String>,
    pub input: Option<i64>,
    pub cache_read: Option<i64>,
    pub cache_write: Option<i64>,
    pub output: Option<i64>,
    pub tools: String,
    pub skills: String,
    pub errors: String,
    pub agents: String,
}

/// The record of a turn: its index, uuid, timestamp, the user's text
/// (empty when absent), duration, whether it was interrupted, the API
/// calls, the model, the token counts, and the tools, skills and errors as
/// the database listed them; then its subagents, when it launched any.
pub fn turn_json(row: TurnRow, subagents: Vec<Json>) -> (j: Json)
    ensures
        j is Object,
        j->Object_0@.len() == if subagents@.len() > 0 { 13int } else { 12int },
        field_is(j->Object_0@[0], "index"@, Json::Int(row.index)),
        field_is(j->Object_0@[1], "uuid"@, opt_str_json(row.uuid)),
        field_is(j->Object_0@[2], "timestamp"@, opt_str_json(row.timestamp)),
        j->Object_0@[3].name@ == "user_text"@,
        (j->Object_0@[3].value matches Json::Str(t) && t@ == (match row.user_text {
            Some(u) => u@,
            None => Seq::<char>::empty(),
        })),
        field_is(j->Object_0@[4], "duration_seconds"@, opt_int_json(row.duration_seconds)),
        field_is(j->Object_0@[5], "interrupted"@, Json::Bool(row.interrupted)),
        field_is(j->Object_0@[6], "api_calls"@, Json::Int(row.api_calls)),
        field_is(j->Object_0@[7], "model"@, opt_str_json(row.model)),
        j->Object_0@[8].name@ == "tokens"@,
        tokens_ok(j->Object_0@[8].value, row.input, row.cache_read, row.cache_write, row.output),
        field_is(j->Object_0@[9], "tools"@, Json::Text(row.tools)),
        field_is(j->Object_0@[10], "skills"@, Json::Text(row.skills)),
        field_is(j->Object_0@[11], "errors"@, Json::Text(row.errors)),
        subagents@.len() > 0 ==> (j->Object_0@[12].name@ == "subagents"@ && (j->Object_0@[12].value
            matches Json::Array(a) && a@ == subagents@)),
{
    let mut o: Vec<JsonField> = Vec::new();
    o.push(field("index", Json::Int(row.index)));
    o.push(field("uuid", str_or_null(row.uuid)));
    o.push(field("timestamp", str_or_null(row.timestamp)));
    let text = match row.user_text {
        Some(u) => u,
        None => String::new(),
    };
    o.push(field("user_text", Json::Str(text)));
    o.push(field("duration_seconds", int_or_null(row.duration_seconds)));
    o.push(field("interrupted", Json::Bool(row.interrupted)));
    o.push(field("api_calls", Json::Int(row.api_calls)));
    o.push(field("model", str_or_null(row.model)));
    o.push(field("tokens", tokens(row.input, row.cache_read, row.cache_write, row.output)));
    o.push(field("tools", Json::Text(row.tools)));
    o.push(field("skills", Json::Text(row.skills)));
    o.push(field("errors", Json::Text(row.errors)));
    if subagents.len() > 0 {
        o.push(field("subagents", Json::Array(subagents)));
    }
    Json::Object(o)
}

/// The aggregate row of a subagent transcript: its span, API calls, model,
/// token counts, and the tools, skills and errors the database listed.
pub struct AggregateRow {
    pub duration_seconds: Option<i64>,
    pub api_calls: i64,
    pub model: Option<String>,
    pub input: Option<i64>,
    pub cache_read: Option<i64>,
    pub cache_write: Option<i64>,
    pub output: Option<i64>,
    pub tools: String,
    pub skills: String,
    pub errors: String,
}

/// The fields `fs` from position `at` on are the aggregate of `a`.
pub open spec fn aggregate_ok(fs: Seq<JsonField>, at: int, a: AggregateRow) -> bool {
    &&& fs.len() == at + 7
    &&& field_is(fs[at], "duration_seconds"@, opt_int_json(a.duration_seconds))
    &&& field_is(fs[at + 1], "api_calls"@, Json::Int(a.api_calls))
    &&& field_is(fs[at + 2], "model"@, opt_str_json(a.model))
    &&& fs[at + 3].name@ == "tokens"@
    &&& tokens_ok(fs[at + 3].value, a.input, a.cache_read, a.cache_write, a.output)
    &&& field_is(fs[at + 4], "tools"@, Json::Text(a.tools))
    &&& field_is(fs[at + 5], "skills"@, Json::Text(a.skills))
    &&& field_is(fs[at + 6], "errors"@, Json::Text(a.errors))
}

/// The record of a subagent launch: its agent id and description (empty
/// when absent); with no agent id, no file and no completion turn; with
/// one, the turn it completed in, its transcript file, and, when the
/// transcript was found, its aggregate.
pub fn agent_json(
    agent_id: Option<String>,
    description: Option<String>,
    completed_in_turn: Option<i64>,
    file: Option<String>,
    aggregate: Option<AggregateRow>,
) -> (j: Json)
    ensures
        j is Object,
        field_is(j->Object_0@[0], "agent_id"@, opt_str_json(agent_id)),
        j->Object_0@[1].name@ == "description"@,
        (j->Object_0@[1].value matches Json::Str(d) && d@ == (match description {
            Some(t) => t@,
            None => Seq::<char>::empty(),
        })),
        agent_id is None ==> {
            &&& j->Object_0@.len() == 4
            &&& field_is(j->Object_0@[2], "file"@, Json::Null)
            &&& field_is(j->Object_0@[3], "completed_in_turn"@, Json::Null)
        },
        agent_id is Some ==> {
            &&& field_is(j->Object_0@[2], "completed_in_turn"@, opt_int_json(completed_in_turn))
            &&& field_is(j->Object_0@[3], "file"@, opt_str_json(file))
            &&& match aggregate {
                Some(a) => aggregate_ok(j->Object_0@, 4, a),
                None => j->Object_0@.len() == 4,
            }
        },
{
    let is_none = agent_id.is_none();
    let mut o: Vec<JsonField> = Vec::new();
    o.push(field("agent_id", str_or_null(agent_id)));
    let d = match description {
        Some(t) => t,
        None => String::new(),
    };
    o.push(field("description", Json::Str(d)));
    if is_none {
        o.push(field("file", Json::Null));
        o.push(field("completed_in_turn", Json::Null));
        return Json::Object(o);
    }
    o.push(field("completed_in_turn", int_or_null(completed_in_turn)));
    o.push(field("file", str_or_null(file)));
    match aggregate {
        Some(a) => {
            o.push(field("duration_seconds", int_or_null(a.duration_seconds)));
            o.push(field("api_calls", Json::Int(a.api_calls)));
            o.push(field("model", str_or_null(a.model)));
            o.push(field("tokens", tokens(a.input, a.cache_read, a.cache_write, a.output)));
            o.push(field("tools", Json::Text(a.tools)));
            o.push(field("skills", Json::Text(a.skills)));
            o.push(field("errors", Json::Text(a.errors)));
        },
        None => {},
    }
    Json::Object(o)
}

} // verus!
