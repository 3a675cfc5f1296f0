//! The entity-attribute-value store that pages use as a database: its
//! schema, the identifiers it accepts, the SQL of its queries, and how field
//! values are stored and read back.

use vstd::prelude::*;
use crate::num::{decimal_spec, format_u64};
use crate::text::{alphanumeric, chars_of, contains_spec, eq_str, is_alphanumeric, matches_at, owned, push_str, starts_with_spec};

verus! {

#[verifier::external_type_specification]
#[verifier::external_body]
pub struct ExConnection(rusqlite::Connection);

/// Runs one SQL statement without parameters with
/// `rusqlite::Connection::execute`, its error as text. What the database
/// does, and whether it succeeds, depends on the database file: nothing is
/// stated of the result.
#[verifier::external_body]
fn execute_sql(conn: &rusqlite::Connection, sql: &str) -> (r: Result<usize, String>) {
    match conn.execute(sql, []) {
        Ok(n) => Ok(n),
        Err(e) => Err(e.to_string()),
    }
}

/// The statements that create the store's tables and indexes, in order,
/// each with the start of the error text for its failure.
pub open spec fn schema_steps() -> Seq<(Seq<char>, Seq<char>)> {
    seq![
        (
            "CREATE TABLE IF NOT EXISTS pwa_data (\n            id INTEGER PRIMARY KEY AUTOINCREMENT,\n            pwa_id TEXT NOT NULL,\n            db_name TEXT NOT NULL DEFAULT 'default',\n            table_name TEXT NOT NULL,\n            data_id TEXT NOT NULL,\n            created_at INTEGER DEFAULT (strftime('%s', 'now')),\n            updated_at INTEGER DEFAULT (strftime('%s', 'now')),\n            UNIQUE(pwa_id, db_name, table_name, data_id)\n        )"@,
            "创建 pwa_data 表失败: "@,
        ),
        (
            "CREATE TABLE IF NOT EXISTS pwa_schema_data (\n            id INTEGER PRIMARY KEY AUTOINCREMENT,\n            data_id INTEGER NOT NULL,\n            key TEXT NOT NULL,\n            value TEXT,\n            value_type TEXT DEFAULT 'string',\n            created_at INTEGER DEFAULT (strftime('%s', 'now')),\n            FOREIGN KEY (data_id) REFERENCES pwa_data(id) ON DELETE CASCADE,\n            UNIQUE(data_id, key)\n        )"@,
            "创建 pwa_schema_data 表失败: "@,
        ),
        (
            "CREATE INDEX IF NOT EXISTS idx_pwa_data_lookup ON pwa_data(pwa_id, db_name, table_name)"@,
            "创建索引失败: "@,
        ),
        ("CREATE INDEX IF NOT EXISTS idx_pwa_data_data_id ON pwa_data(data_id)"@, "创建索引失败: "@),
        (
            "CREATE INDEX IF NOT EXISTS idx_schema_data_lookup ON pwa_schema_data(data_id, key)"@,
            "创建索引失败: "@,
        ),
        ("CREATE INDEX IF NOT EXISTS idx_schema_data_value ON pwa_schema_data(value)"@, "创建索引失败: "@),
    ]
}

fn schema_list() -> (r: Vec<(&'static str, &'static str)>)
    ensures
        r@.map_values(|p: (&str, &str)| (p.0@, p.1@)) == schema_steps(),
{
    let r = vec![
        (
            "CREATE TABLE IF NOT EXISTS pwa_data (\n            id INTEGER PRIMARY KEY AUTOINCREMENT,\n            pwa_id TEXT NOT NULL,\n            db_name TEXT NOT NULL DEFAULT 'default',\n            table_name TEXT NOT NULL,\n            data_id TEXT NOT NULL,\n            created_at INTEGER DEFAULT (strftime('%s', 'now')),\n            updated_at INTEGER DEFAULT (strftime('%s', 'now')),\n            UNIQUE(pwa_id, db_name, table_name, data_id)\n        )",
            "创建 pwa_data 表失败: ",
        ),
        (
            "CREATE TABLE IF NOT EXISTS pwa_schema_data (\n            id INTEGER PRIMARY KEY AUTOINCREMENT,\n            data_id INTEGER NOT NULL,\n            key TEXT NOT NULL,\n            value TEXT,\n            value_type TEXT DEFAULT 'string',\n            created_at INTEGER DEFAULT (strftime('%s', 'now')),\n            FOREIGN KEY (data_id) REFERENCES pwa_data(id) ON DELETE CASCADE,\n            UNIQUE(data_id, key)\n        )",
            "创建 pwa_schema_data 表失败: ",
        ),
        (
            "CREATE INDEX IF NOT EXISTS idx_pwa_data_lookup ON pwa_data(pwa_id, db_name, table_name)",
            "创建索引失败: ",
        ),
        ("CREATE INDEX IF NOT EXISTS idx_pwa_data_data_id ON pwa_data(data_id)", "创建索引失败: "),
        (
            "CREATE INDEX IF NOT EXISTS idx_schema_data_lookup ON pwa_schema_data(data_id, key)",
            "创建索引失败: ",
        ),
        ("CREATE INDEX IF NOT EXISTS idx_schema_data_value ON pwa_schema_data(value)", "创建索引失败: "),
    ];
    assert(r@.map_values(|p: (&str, &str)| (p.0@, p.1@)) =~= schema_steps());
    r
}

/// What one schema statement's run means for the setup, given what the
/// database answered: success goes on; a failure is reported as the text
/// that belongs to statement `i` followed by the database's description.
pub fn schema_step_outcome(i: usize, result: Result<usize, String>) -> (r: Result<(), String>)
    requires
        i < schema_steps().len(),
    ensures
        match result {
            Ok(_) => r is Ok,
            Err(e) => r matches Err(m) && m@ == schema_steps()[i as int].1 + e@,
        },
{
    let steps = schema_list();
    let (_, prefix) = steps[i];
    assert(schema_steps()[i as int].1 == prefix@);
    match result {
        Ok(_) => Ok(()),
        Err(e) => {
            let mut m = owned(prefix);
            push_str(&mut m, e.as_str());
            Err(m)
        },
    }
}

/// Creates the store's tables and indexes, stopping at the first statement
/// that fails. A failure is reported as the text that belongs to the failed
/// statement followed by the database's description. Whether a statement
/// succeeds is the database's answer, so success is not promised.
pub fn init_sqlite_kv(conn: &rusqlite::Connection) -> (r: Result<(), String>)
    ensures
        r matches Err(e) ==> exists|i: int|
            0 <= i < schema_steps().len() && starts_with_spec(e@, #[trigger] schema_steps()[i].1),
{
    let steps = schema_list();
    let mut i: usize = 0;
    while i < steps.len()
        invariant
            i <= steps@.len(),
            steps@.map_values(|p: (&str, &str)| (p.0@, p.1@)) == schema_steps(),
        decreases steps@.len() - i,
    {
        let (sql, _) = steps[i];
        let answer = execute_sql(conn, sql);
        let ghost answered = answer;
        match schema_step_outcome(i, answer) {
            Ok(()) => {},
            Err(m) => {
                proof {
                    let p = schema_steps()[i as int].1;
                    assert(m@ == p + answered->Err_0@);
                    assert(m@.subrange(0, p.len() as int) =~= p);
                    assert(starts_with_spec(m@, schema_steps()[i as int].1));
                }
                return Err(m);
            },
        }
        i = i + 1;
    }
    Ok(())
}

// ------------------------------------------------------------ identifiers

/// Whether an identifier is accepted: each character is alphanumeric
/// (`char::is_alphanumeric`), `_` or `-`.
pub open spec fn valid_id(id: Seq<char>) -> bool {
    forall|i: int| 0 <= i < id.len() ==> alphanumeric(#[trigger] id[i]) || id[i] == '_' || id[i] == '-'
}

/// `无效的标识符`, the error for a refused identifier.
pub open spec fn invalid_id_text() -> Seq<char> {
    "无效的标识符"@
}

/// The identifier, or an error where it holds another character.
pub fn sanitize_id(id: &str) -> (r: Result<String, String>)
    ensures
        r is Ok <==> valid_id(id@),
        r matches Ok(s) ==> s@ == id@,
        r matches Err(e) ==> e@ == invalid_id_text(),
{
    let v = chars_of(id);
    let mut i: usize = 0;
    while i < v.len()
        invariant
            i <= v@.len(),
            v@ == id@,
            forall|j: int| 0 <= j < i ==> alphanumeric(#[trigger] v@[j]) || v@[j] == '_' || v@[j] == '-',
        decreases v@.len() - i,
    {
        let c = v[i];
        if !(is_alphanumeric(c) || c == '_' || c == '-') {
            return Err(owned("无效的标识符"));
        }
        i = i + 1;
    }
    Ok(owned(id))
}

// ------------------------------------------------------------ values

/// A field value as the page sends it (a JSON value): null, a boolean, a
/// number (its JSON text), a string, or an array or object (its JSON text).
#[derive(Debug, PartialEq, Eq)]
pub enum FieldValue {
    Null,
    Bool(bool),
    Number(String),
    Text(String),
    Json(String),
}

/// A field value as values.
pub enum FieldView {
    Null,
    Bool(bool),
    Number(Seq<char>),
    Text(Seq<char>),
    Json(Seq<char>),
}

impl View for FieldValue {
    type V = FieldView;

    open spec fn view(&self) -> FieldView {
        match self {
            FieldValue::Null => FieldView::Null,
            FieldValue::Bool(b) => FieldView::Bool(*b),
            FieldValue::Number(n) => FieldView::Number(n@),
            FieldValue::Text(s) => FieldView::Text(s@),
            FieldValue::Json(j) => FieldView::Json(j@),
        }
    }
}

/// `true` or `false`.
pub open spec fn bool_text(b: bool) -> Seq<char> {
    if b {
        "true"@
    } else {
        "false"@
    }
}

/// The text a value is compared as in a filter: `null`, `true`/`false`,
/// the number's text, the string, or the JSON text.
pub open spec fn value_text(v: FieldView) -> Seq<char> {
    match v {
        FieldView::Null => "null"@,
        FieldView::Bool(b) => bool_text(b),
        FieldView::Number(n) => n,
        FieldView::Text(s) => s,
        FieldView::Json(j) => j,
    }
}

/// The text of a value in a filter.
pub fn json_to_string(v: &FieldValue) -> (r: String)
    ensures
        r@ == value_text(v@),
{
    match v {
        FieldValue::Null => owned("null"),
        FieldValue::Bool(b) => if *b {
            owned("true")
        } else {
            owned("false")
        },
        FieldValue::Number(n) => n.clone(),
        FieldValue::Text(s) => s.clone(),
        FieldValue::Json(j) => j.clone(),
    }
}

/// How a value is stored: its text (empty for null) and its type name
/// (`null`, `boolean`, `number`, `string`, `json`).
pub open spec fn stored_spec(v: FieldView) -> (Seq<char>, Seq<char>) {
    match v {
        FieldView::Null => (Seq::empty(), "null"@),
        FieldView::Bool(b) => (bool_text(b), "boolean"@),
        FieldView::Number(n) => (n, "number"@),
        FieldView::Text(s) => (s, "string"@),
        FieldView::Json(j) => (j, "json"@),
    }
}

/// The stored text and type name of a value.
pub fn stored_field(v: &FieldValue) -> (r: (String, String))
    ensures
        (r.0@, r.1@) == stored_spec(v@),
{
    match v {
        FieldValue::Null => (String::new(), owned("null")),
        FieldValue::Bool(b) => (
            if *b {
                owned("true")
            } else {
                owned("false")
            },
            owned("boolean"),
        ),
        FieldValue::Number(n) => (n.clone(), owned("number")),
        FieldValue::Text(s) => (s.clone(), owned("string")),
        FieldValue::Json(j) => (j.clone(), owned("json")),
    }
}

/// A stored field read back: by its type name `null`, `boolean` (true only
/// for the text `true`), `number` (the text, read as a number by the
/// caller), `json` (the text, parsed by the caller), and a string for any
/// other type name.
pub open spec fn read_back_spec(value: Seq<char>, value_type: Seq<char>) -> FieldView {
    if value_type == "null"@ {
        FieldView::Null
    } else if value_type == "boolean"@ {
        FieldView::Bool(value == "true"@)
    } else if value_type == "number"@ {
        FieldView::Number(value)
    } else if value_type == "json"@ {
        FieldView::Json(value)
    } else {
        FieldView::Text(value)
    }
}

/// A stored field read back, as `read_back_spec` says.
pub fn read_back(value: String, value_type: &str) -> (r: FieldValue)
    ensures
        r@ == read_back_spec(value@, value_type@),
{
    if eq_str(value_type, "null") {
        FieldValue::Null
    } else if eq_str(value_type, "boolean") {
        FieldValue::Bool(eq_str(value.as_str(), "true"))
    } else if eq_str(value_type, "number") {
        FieldValue::Number(value)
    } else if eq_str(value_type, "json") {
        FieldValue::Json(value)
    } else {
        FieldValue::Text(value)
    }
}

/// Storing a value and reading it back gives the value.
pub proof fn lemma_store_read_back(v: FieldView)
    ensures
        read_back_spec(stored_spec(v).0, stored_spec(v).1) == v,
{
    reveal_strlit("null");
    reveal_strlit("boolean");
    reveal_strlit("number");
    reveal_strlit("string");
    reveal_strlit("json");
    reveal_strlit("true");
    reveal_strlit("false");
    assert("string"@[0] != "null"@[0] && "string"@[0] != "boolean"@[0]);
    assert("string"@[0] != "number"@[0] && "string"@[0] != "json"@[0]);
    assert("json"@ != "null"@ && "json"@ != "boolean"@ && "json"@ != "number"@) by {
        assert("json"@[0] != "null"@[0] && "json"@[0] != "boolean"@[0] && "json"@[0] != "number"@[0]);
    }
    assert("number"@ != "null"@ && "number"@ != "boolean"@) by {
        assert("number"@.len() != "null"@.len() && "number"@[0] != "boolean"@[0]);
    }
    assert("boolean"@ != "null"@) by {
        assert("boolean"@[0] != "null"@[0]);
    }
    assert("false"@ != "true"@) by {
        assert("false"@[0] != "true"@[0]);
    }
}

// ------------------------------------------------------------ queries

/// How a query is ordered and paged.
pub struct QueryOptions {
    pub order_by: Option<String>,
    pub desc: Option<bool>,
    pub limit: Option<usize>,
    pub offset: Option<usize>,
}

/// No ordering and no paging.
pub fn default_query_options() -> (r: QueryOptions)
    ensures
        r.order_by is None && r.desc is None && r.limit is None && r.offset is None,
{
    QueryOptions { order_by: None, desc: None, limit: None, offset: None }
}

/// `t` as the inside of an SQL string literal: each `'` doubled.
pub open spec fn quote_doubled(t: Seq<char>) -> Seq<char>
    decreases t.len(),
{
    if t.len() == 0 {
        Seq::empty()
    } else if t.last() == '\'' {
        quote_doubled(t.drop_last()) + seq!['\'', '\'']
    } else {
        quote_doubled(t.drop_last()).push(t.last())
    }
}

/// Whether the quotes of `e` come in adjacent pairs, so that inside `'…'`
/// none of them ends the literal.
pub open spec fn quotes_paired(e: Seq<char>) -> bool
    decreases e.len(),
{
    if e.len() == 0 {
        true
    } else if e.last() == '\'' {
        e.len() >= 2 && e[e.len() - 2] == '\'' && quotes_paired(e.take(e.len() - 2))
    } else {
        quotes_paired(e.drop_last())
    }
}

/// A doubled text cannot end its literal early: its quotes come in pairs.
pub proof fn lemma_quote_doubled_paired(t: Seq<char>)
    ensures
        quotes_paired(quote_doubled(t)),
    decreases t.len(),
{
    if t.len() > 0 {
        lemma_quote_doubled_paired(t.drop_last());
        let f = quote_doubled(t.drop_last());
        let e = quote_doubled(t);
        if t.last() == '\'' {
            assert(e.take(e.len() - 2) =~= f);
        } else {
            assert(e.drop_last() =~= f);
        }
    }
}

/// Appends `t` to `sql` with each `'` doubled.
fn push_literal(sql: &mut String, t: &str)
    ensures
        final(sql)@ == old(sql)@ + quote_doubled(t@),
{
    let v = chars_of(t);
    let ghost start = sql@;
    let mut i: usize = 0;
    assert(v@.take(0) =~= Seq::<char>::empty());
    assert(start + Seq::<char>::empty() =~= start);
    while i < v.len()
        invariant
            i <= v@.len(),
            v@ == t@,
            sql@ == start + quote_doubled(v@.take(i as int)),
        decreases v@.len() - i,
    {
        let c = v[i];
        proof {
            assert(v@.take(i + 1).drop_last() =~= v@.take(i as int));
            assert(v@.take(i + 1).last() == c);
        }
        if c == '\'' {
            sql.push('\'');
            sql.push('\'');
        } else {
            sql.push(c);
        }
        assert(sql@ =~= start + quote_doubled(v@.take(i + 1)));
        i = i + 1;
    }
    assert(v@.take(v@.len() as int) =~= v@);
}

/// The filter clause of one field: the record has an attribute `key` whose
/// stored text is the value's text, both written as SQL literals with
/// their quotes doubled.
pub open spec fn filter_clause(key: Seq<char>, v: FieldView) -> Seq<char> {
    " AND EXISTS (SELECT 1 FROM pwa_schema_data s \n                   WHERE s.data_id = d.id AND s.key = '"@
        + quote_doubled(key) + "' AND s.value = '"@ + quote_doubled(value_text(v)) + "')"@
}

/// The filter clauses of all fields, in order.
pub open spec fn filter_clauses(f: Seq<(Seq<char>, FieldView)>) -> Seq<char>
    decreases f.len(),
{
    if f.len() == 0 {
        Seq::empty()
    } else {
        filter_clauses(f.drop_last()) + filter_clause(f.last().0, f.last().1)
    }
}

/// The filter of the fields `f` then `g` is the filter of `f` followed by
/// the filter of `g`; a filter of one field is that field's clause.
pub proof fn lemma_filter_clauses_concat(f: Seq<(Seq<char>, FieldView)>, g: Seq<(Seq<char>, FieldView)>)
    ensures
        filter_clauses(f + g) == filter_clauses(f) + filter_clauses(g),
        g.len() == 1 ==> filter_clauses(g) == filter_clause(g[0].0, g[0].1),
    decreases g.len(),
{
    if g.len() == 0 {
        assert(f + g =~= f);
        assert(filter_clauses(f) + Seq::<char>::empty() =~= filter_clauses(f));
    } else {
        lemma_filter_clauses_concat(f, g.drop_last());
        assert((f + g).drop_last() =~= f + g.drop_last());
        assert((f + g).last() == g.last());
        assert(filter_clauses(f) + filter_clauses(g.drop_last()) + filter_clause(g.last().0, g.last().1)
            =~= filter_clauses(f) + (filter_clauses(g.drop_last()) + filter_clause(g.last().0, g.last().1)));
        if g.len() == 1 {
            assert(g.drop_last().len() == 0);
            assert(Seq::<char>::empty() + filter_clause(g[0].0, g[0].1) =~= filter_clause(g[0].0, g[0].1));
        }
    }
}

/// No filter field is dropped: the clause of every field of `f` stands in
/// the filter, the clause of field `i` right after those of the fields
/// before it.
pub proof fn lemma_every_filter_field(f: Seq<(Seq<char>, FieldView)>, i: int)
    requires
        0 <= i < f.len(),
    ensures
        matches_at(filter_clauses(f), filter_clauses(f.take(i)).len() as int, filter_clause(f[i].0, f[i].1)),
        contains_spec(filter_clauses(f), filter_clause(f[i].0, f[i].1)),
{
    let a = f.take(i);
    let one = seq![f[i]];
    let b = f.skip(i + 1);
    assert(f =~= a + one + b);
    lemma_filter_clauses_concat(a, one);
    lemma_filter_clauses_concat(a + one, b);
    let c = filter_clause(f[i].0, f[i].1);
    let s = filter_clauses(f);
    let n = filter_clauses(a).len() as int;
    assert(s == filter_clauses(a) + c + filter_clauses(b));
    assert(s.subrange(n, n + c.len()) =~= c);
    assert(matches_at(s, n, c));
}

/// The ordering and paging clauses: ` ORDER BY d.{order}` (and ` DESC`
/// where asked), ` LIMIT {n}` (and ` OFFSET {m}` where a limit is given).
pub open spec fn option_clauses(
    order_by: Option<Seq<char>>,
    desc: Option<bool>,
    limit: Option<usize>,
    offset: Option<usize>,
) -> Seq<char> {
    let o = match order_by {
        Some(k) => " ORDER BY d."@ + k + if desc == Some(true) {
            " DESC"@
        } else {
            Seq::empty()
        },
        None => Seq::empty(),
    };
    let l = match limit {
        Some(n) => " LIMIT "@ + decimal_spec(n as nat) + match offset {
            Some(m) => " OFFSET "@ + decimal_spec(m as nat),
            None => Seq::empty(),
        },
        None => Seq::empty(),
    };
    o + l
}

/// How ordering and paging combine: the ordering clause comes first and
/// the paging clause after it; ` DESC` follows the ordering column only
/// where asked; an offset follows the limit as ` OFFSET {m}`, and is
/// dropped where no limit is given.
pub proof fn lemma_option_clauses(
    order_by: Option<Seq<char>>,
    desc: Option<bool>,
    limit: Option<usize>,
    offset: Option<usize>,
    k: Seq<char>,
    n: usize,
    m: usize,
)
    ensures
        option_clauses(order_by, desc, limit, offset) == option_clauses(order_by, desc, None, None)
            + option_clauses(None, None, limit, offset),
        option_clauses(Some(k), Some(true), None, None) == option_clauses(Some(k), None, None, None)
            + " DESC"@,
        option_clauses(Some(k), Some(false), None, None) == option_clauses(Some(k), None, None, None),
        option_clauses(None, desc, None, None) == Seq::<char>::empty(),
        option_clauses(None, None, Some(n), Some(m)) == option_clauses(None, None, Some(n), None) + " OFFSET "@
            + decimal_spec(m as nat),
        option_clauses(None, None, None, offset) == Seq::<char>::empty(),
{
    assert(option_clauses(order_by, desc, None, None) + option_clauses(None, None, limit, offset)
        =~= option_clauses(order_by, desc, limit, offset));
    assert(option_clauses(Some(k), Some(true), None, None) =~= option_clauses(Some(k), None, None, None)
        + " DESC"@);
    assert(option_clauses(Some(k), Some(false), None, None) =~= option_clauses(Some(k), None, None, None));
    assert(option_clauses(None, desc, None, None) =~= Seq::<char>::empty());
    assert(option_clauses(None, None, Some(n), Some(m)) =~= option_clauses(None, None, Some(n), None)
        + " OFFSET "@ + decimal_spec(m as nat));
    assert(option_clauses(None, None, None, offset) =~= Seq::<char>::empty());
}

/// The start of a record query for three identifiers.
pub open spec fn find_head(p: Seq<char>, d: Seq<char>, t: Seq<char>) -> Seq<char> {
    "SELECT d.id, d.data_id, d.created_at, d.updated_at \n         FROM pwa_data d \n         WHERE d.pwa_id = '"@
        + p + "' AND d.db_name = '"@ + d + "' AND d.table_name = '"@ + t + "'"@
}

/// The start of a count query for three identifiers.
pub open spec fn count_head(p: Seq<char>, d: Seq<char>, t: Seq<char>) -> Seq<char> {
    "SELECT COUNT(*) FROM pwa_data d \n         WHERE d.pwa_id = '"@ + p + "' AND d.db_name = '"@ + d
        + "' AND d.table_name = '"@ + t + "'"@
}

/// The view of a filter list.
pub open spec fn filter_view(f: Seq<(String, FieldValue)>) -> Seq<(Seq<char>, FieldView)> {
    f.map_values(|x: (String, FieldValue)| (x.0@, x.1@))
}

fn push_filters(sql: &mut String, filter: &Vec<(String, FieldValue)>)
    ensures
        final(sql)@ == old(sql)@ + filter_clauses(filter_view(filter@)),
{
    let ghost start = sql@;
    let ghost fv = filter_view(filter@);
    let mut i: usize = 0;
    assert(fv.take(0) =~= Seq::<(Seq<char>, FieldView)>::empty());
    assert(start + Seq::<char>::empty() =~= start);
    while i < filter.len()
        invariant
            i <= filter@.len(),
            fv == filter_view(filter@),
            sql@ == start + filter_clauses(fv.take(i as int)),
        decreases filter@.len() - i,
    {
        let ghost before = sql@;
        push_str(sql, " AND EXISTS (SELECT 1 FROM pwa_schema_data s \n                   WHERE s.data_id = d.id AND s.key = '");
        push_literal(sql, filter[i].0.as_str());
        push_str(sql, "' AND s.value = '");
        let t = json_to_string(&filter[i].1);
        push_literal(sql, t.as_str());
        push_str(sql, "')");
        proof {
            assert(fv.take(i + 1).drop_last() == fv.take(i as int));
            assert(fv.take(i + 1).last() == fv[i as int]);
            assert(sql@ =~= before + filter_clause(fv[i as int].0, fv[i as int].1));
        }
        i = i + 1;
    }
    assert(fv.take(filter@.len() as int) == fv);
}

fn push_options(sql: &mut String, o: &QueryOptions)
    ensures
        final(sql)@ == old(sql)@ + option_clauses(
            match o.order_by {
                Some(k) => Some(k@),
                None => None,
            },
            o.desc,
            o.limit,
            o.offset,
        ),
{
    let ghost start = sql@;
    match &o.order_by {
        Some(k) => {
            push_str(sql, " ORDER BY d.");
            push_str(sql, k.as_str());
            match o.desc {
                Some(true) => push_str(sql, " DESC"),
                _ => {},
            }
        },
        None => {},
    }
    let ghost mid = sql@;
    match o.limit {
        Some(n) => {
            push_str(sql, " LIMIT ");
            let t = format_u64(n as u64);
            push_str(sql, t.as_str());
            match o.offset {
                Some(m) => {
                    push_str(sql, " OFFSET ");
                    let u = format_u64(m as u64);
                    push_str(sql, u.as_str());
                },
                None => {},
            }
        },
        None => {},
    }
    assert(sql@ =~= start + option_clauses(
        match o.order_by {
            Some(k) => Some(k@),
            None => None,
        },
        o.desc,
        o.limit,
        o.offset,
    ));
}

fn checked_ids(p: &str, d: &str, t: &str) -> (r: Result<(String, String, String), String>)
    ensures
        r is Ok <==> valid_id(p@) && valid_id(d@) && valid_id(t@),
        r matches Ok((a, b, c)) ==> a@ == p@ && b@ == d@ && c@ == t@,
        r matches Err(e) ==> e@ == invalid_id_text(),
{
    let a = sanitize_id(p)?;
    let b = sanitize_id(d)?;
    let c = sanitize_id(t)?;
    Ok((a, b, c))
}

/// The query for the records of a table that match a filter, ordered and
/// paged as asked; an error where an identifier or the ordering column is
/// refused. Keys and values are written as literals with their quotes
/// doubled.
pub fn find_sql(
    pwa_id: &str,
    db_name: &str,
    table_name: &str,
    filter: &Vec<(String, FieldValue)>,
    options: &QueryOptions,
) -> (r: Result<String, String>)
    ensures
        r is Ok <==> valid_id(pwa_id@) && valid_id(db_name@) && valid_id(table_name@) && (
        options.order_by matches Some(k) ==> valid_id(k@)),
        r matches Err(e) ==> e@ == invalid_id_text(),
        r matches Ok(sql) ==> sql@ == find_head(pwa_id@, db_name@, table_name@) + filter_clauses(
            filter_view(filter@),
        ) + option_clauses(
            match options.order_by {
                Some(k) => Some(k@),
                None => None,
            },
            options.desc,
            options.limit,
            options.offset,
        ),
{
    let (p, d, t) = checked_ids(pwa_id, db_name, table_name)?;
    match &options.order_by {
        Some(k) => {
            sanitize_id(k.as_str())?;
        },
        None => {},
    }
    let mut sql = owned("SELECT d.id, d.data_id, d.created_at, d.updated_at \n         FROM pwa_data d \n         WHERE d.pwa_id = '");
    push_str(&mut sql, p.as_str());
    push_str(&mut sql, "' AND d.db_name = '");
    push_str(&mut sql, d.as_str());
    push_str(&mut sql, "' AND d.table_name = '");
    push_str(&mut sql, t.as_str());
    push_str(&mut sql, "'");
    assert(sql@ =~= find_head(pwa_id@, db_name@, table_name@));
    push_filters(&mut sql, filter);
    push_options(&mut sql, options);
    Ok(sql)
}

/// The query that counts the records of a table that match a filter; an
/// error where an identifier is refused.
pub fn count_sql(pwa_id: &str, db_name: &str, table_name: &str, filter: &Vec<(String, FieldValue)>) -> (r:
    Result<String, String>)
    ensures
        r is Ok <==> valid_id(pwa_id@) && valid_id(db_name@) && valid_id(table_name@),
        r matches Err(e) ==> e@ == invalid_id_text(),
        r matches Ok(sql) ==> sql@ == count_head(pwa_id@, db_name@, table_name@) + filter_clauses(
            filter_view(filter@),
        ),
{
    let (p, d, t) = checked_ids(pwa_id, db_name, table_name)?;
    let mut sql = owned("SELECT COUNT(*) FROM pwa_data d \n         WHERE d.pwa_id = '");
    push_str(&mut sql, p.as_str());
    push_str(&mut sql, "' AND d.db_name = '");
    push_str(&mut sql, d.as_str());
    push_str(&mut sql, "' AND d.table_name = '");
    push_str(&mut sql, t.as_str());
    push_str(&mut sql, "'");
    assert(sql@ =~= count_head(pwa_id@, db_name@, table_name@));
    push_filters(&mut sql, filter);
    Ok(sql)
}

/// The query listing the table names of an app, within one database where
/// one is named.
pub open spec fn list_tables_spec(p: Seq<char>, db: Option<Seq<char>>) -> Seq<char> {
    match db {
        Some(d) => "SELECT DISTINCT table_name FROM pwa_data \n             WHERE pwa_id = '"@ + p
            + "' AND db_name = '"@ + d + "' ORDER BY table_name"@,
        None => "SELECT DISTINCT table_name FROM pwa_data \n             WHERE pwa_id = '"@ + p
            + "' ORDER BY table_name"@,
    }
}

/// The query listing the table names of an app; an error where an
/// identifier is refused.
pub fn list_tables_sql(pwa_id: &str, db_name: Option<&str>) -> (r: Result<String, String>)
    ensures
        r is Ok <==> valid_id(pwa_id@) && match db_name {
            Some(d) => valid_id(d@),
            None => true,
        },
        r matches Err(e) ==> e@ == invalid_id_text(),
        r matches Ok(sql) ==> sql@ == list_tables_spec(
            pwa_id@,
            match db_name {
                Some(d) => Some(d@),
                None => None,
            },
        ),
{
    let p = sanitize_id(pwa_id)?;
    match db_name {
        Some(db) => {
            let d = sanitize_id(db)?;
            let mut sql = owned("SELECT DISTINCT table_name FROM pwa_data \n             WHERE pwa_id = '");
            push_str(&mut sql, p.as_str());
            push_str(&mut sql, "' AND db_name = '");
            push_str(&mut sql, d.as_str());
            push_str(&mut sql, "' ORDER BY table_name");
            Ok(sql)
        },
        None => {
            let mut sql = owned("SELECT DISTINCT table_name FROM pwa_data \n             WHERE pwa_id = '");
            push_str(&mut sql, p.as_str());
            push_str(&mut sql, "' ORDER BY table_name");
            Ok(sql)
        },
    }
}

} // verus!
