//! Identifier validation and SQL statement planning for the plugin item
//! tables, and the pieces of the AI classification action that decide what
//! is asked of the model and what is reported back.

use crate::llm::{cognitive_axis_of, context_axis_of, parse_classification_response, LlmEndpoint};
use crate::plugins::PluginColumn;
use crate::plugins::placeholders::{
    binds_each_placeholder, lemma_classification_binds_placeholders, lemma_fetch_binds_placeholders,
    lemma_items_query_binds_placeholders, lemma_mutation_binds_placeholders, lemma_settings_update_binds_placeholders,
    mutation_binds_placeholders,
};
use crate::text::{
    chars_of, decimal, free_of, has_substring, occurs_at, split_on, split_str, join_strings, join_with, lowercase, push_decimal_i64, push_decimal_usize, str_eq,
    to_lowercase, utf8_len, views,
};
use vstd::prelude::*;

verus! {

// ---------------------------------------------------------------------------
// Identifier validation
// ---------------------------------------------------------------------------

pub open spec fn is_plugin_name_char(c: char) -> bool {
    ('a' <= c && c <= 'z') || ('0' <= c && c <= '9') || c == '-'
}

pub open spec fn is_column_name_char(c: char) -> bool {
    ('a' <= c && c <= 'z') || ('A' <= c && c <= 'Z') || ('0' <= c && c <= '9') || c == '_'
}

pub open spec fn is_item_id_char(c: char) -> bool {
    is_column_name_char(c) || c == '-'
}

/// The error that validating a plugin name reports, if any.
pub open spec fn plugin_name_error(name: Seq<char>) -> Option<Seq<char>> {
    if name.len() == 0 || utf8_len(name) > 64 {
        Some("Plugin name must be 1-64 characters"@)
    } else if !(forall|i: int| 0 <= i < name.len() ==> is_plugin_name_char(#[trigger] name[i])) {
        Some("Plugin name must contain only lowercase letters, digits, and hyphens"@)
    } else {
        None
    }
}

/// The error that validating a column name reports, if any.
pub open spec fn column_name_error(name: Seq<char>) -> Option<Seq<char>> {
    if name.len() == 0 || utf8_len(name) > 128 {
        Some("Column name must be 1-128 characters"@)
    } else if !(forall|i: int| 0 <= i < name.len() ==> is_column_name_char(#[trigger] name[i])) {
        Some("Column name must contain only letters, digits, and underscores"@)
    } else {
        None
    }
}

/// The error that validating an item id reports, if any.
pub open spec fn item_id_error(id: Seq<char>) -> Option<Seq<char>> {
    if id.len() == 0 || utf8_len(id) > 128 {
        Some("Item ID must be 1-128 characters"@)
    } else if !(forall|i: int| 0 <= i < id.len() ==> is_item_id_char(#[trigger] id[i])) {
        Some("Item ID must contain only letters, digits, hyphens, and underscores"@)
    } else {
        None
    }
}

/// Relates a `Result<(), String>` to an optional error message.
pub open spec fn reports(r: Result<(), String>, error: Option<Seq<char>>) -> bool {
    match r {
        Ok(()) => error is None,
        Err(e) => error == Some(e@),
    }
}

fn all_plugin_name_chars(v: &Vec<char>) -> (r: bool)
    ensures
        r == forall|i: int| 0 <= i < v@.len() ==> is_plugin_name_char(#[trigger] v@[i]),
{
    let mut i: usize = 0;
    while i < v.len()
        invariant
            i <= v@.len(),
            forall|k: int| 0 <= k < i ==> is_plugin_name_char(#[trigger] v@[k]),
        decreases v@.len() - i,
    {
        let c = v[i];
        if !(('a' <= c && c <= 'z') || ('0' <= c && c <= '9') || c == '-') {
            return false;
        }
        i = i + 1;
    }
    true
}

fn all_column_name_chars(v: &Vec<char>, allow_hyphen: bool) -> (r: bool)
    ensures
        r == forall|i: int| 0 <= i < v@.len() ==> (is_column_name_char(#[trigger] v@[i]) || (allow_hyphen && v@[i] == '-')),
{
    let mut i: usize = 0;
    while i < v.len()
        invariant
            i <= v@.len(),
            forall|k: int| 0 <= k < i ==> (is_column_name_char(#[trigger] v@[k]) || (allow_hyphen && v@[k] == '-')),
        decreases v@.len() - i,
    {
        let c = v[i];
        if !(('a' <= c && c <= 'z') || ('A' <= c && c <= 'Z') || ('0' <= c && c <= '9') || c == '_' || (allow_hyphen && c == '-')) {
            return false;
        }
        i = i + 1;
    }
    true
}

/// Checks that a plugin name is 1 to 64 bytes of lowercase ASCII letters,
/// digits and hyphens.
pub fn validate_plugin_name(name: &str) -> (r: Result<(), String>)
    ensures
        reports(r, plugin_name_error(name@)),
{
    if name.is_empty() || name.len() > 64 {
        return Err(String::from_str("Plugin name must be 1-64 characters"));
    }
    let v = chars_of(name);
    if !all_plugin_name_chars(&v) {
        return Err(String::from_str("Plugin name must contain only lowercase letters, digits, and hyphens"));
    }
    Ok(())
}

/// Checks that a column name is 1 to 128 bytes of ASCII letters, digits and
/// underscores.
pub fn validate_column_name(name: &str) -> (r: Result<(), String>)
    ensures
        reports(r, column_name_error(name@)),
{
    if name.is_empty() || name.len() > 128 {
        return Err(String::from_str("Column name must be 1-128 characters"));
    }
    let v = chars_of(name);
    if !all_column_name_chars(&v, false) {
        return Err(String::from_str("Column name must contain only letters, digits, and underscores"));
    }
    Ok(())
}

/// Checks that an item id is 1 to 128 bytes of ASCII letters, digits,
/// hyphens and underscores.
pub fn validate_item_id(id: &str) -> (r: Result<(), String>)
    ensures
        reports(r, item_id_error(id@)),
{
    if id.is_empty() || id.len() > 128 {
        return Err(String::from_str("Item ID must be 1-128 characters"));
    }
    let v = chars_of(id);
    if !all_column_name_chars(&v, true) {
        return Err(String::from_str("Item ID must contain only letters, digits, hyphens, and underscores"));
    }
    Ok(())
}

/// The SQL keyword for an already lowercased sort direction.
pub open spec fn sort_keyword_of(lowered: Seq<char>) -> Result<Seq<char>, Seq<char>> {
    if lowered == "asc"@ {
        Ok("ASC"@)
    } else if lowered == "desc"@ {
        Ok("DESC"@)
    } else {
        Err("Sort direction must be 'asc' or 'desc'"@)
    }
}

pub open spec fn result_view<T: View>(r: Result<T, String>) -> Result<T::V, Seq<char>> {
    match r {
        Ok(v) => Ok(v@),
        Err(e) => Err(e@),
    }
}

/// Maps a lowercased sort direction onto its SQL keyword.
pub fn sort_keyword(lowered: &str) -> (r: Result<&'static str, String>)
    ensures
        result_view(r) == sort_keyword_of(lowered@),
{
    if str_eq(lowered, "asc") {
        Ok("ASC")
    } else if str_eq(lowered, "desc") {
        Ok("DESC")
    } else {
        Err(String::from_str("Sort direction must be 'asc' or 'desc'"))
    }
}

/// Accepts `asc` or `desc` in any letter case and gives the SQL keyword.
pub fn validate_sort_direction(dir: &str) -> (r: Result<&'static str, String>)
    ensures
        result_view(r) == sort_keyword_of(lowercase(dir@)),
{
    let lowered = to_lowercase(dir);
    sort_keyword(lowered.as_str())
}

// ---------------------------------------------------------------------------
// Table names
// ---------------------------------------------------------------------------

/// Hyphens become underscores.
pub open spec fn underscored(s: Seq<char>) -> Seq<char> {
    s.map_values(|c: char| if c == '-' { '_' } else { c })
}

/// The item table of a plugin.
pub open spec fn table_name_for(plugin: Seq<char>) -> Seq<char> {
    underscored(plugin) + "_items"@
}

/// Every character is an ASCII letter, digit or underscore.
pub open spec fn is_safe_identifier(s: Seq<char>) -> bool {
    forall|i: int| 0 <= i < s.len() ==> is_column_name_char(#[trigger] s[i])
}

fn underscore_hyphens(v: &Vec<char>, name: &str) -> (r: String)
    requires
        v@ == name@,
    ensures
        r@ == underscored(name@),
{
    let mut r = String::new();
    let mut i: usize = 0;
    let mut start: usize = 0;
    // Copy runs between hyphens, writing an underscore for each hyphen.
    while i < v.len()
        invariant
            v@ == name@,
            start <= i <= v@.len(),
            r@ + name@.subrange(start as int, i as int) == underscored(name@).take(i as int),
        decreases v@.len() - i,
    {
        if v[i] == '-' {
            r.append(name.substring_char(start, i));
            r.append("_");
            proof {
                reveal_strlit("_");
                assert(underscored(name@).take(i + 1) =~= underscored(name@).take(i as int).push('_'));
                assert(r@ + name@.subrange(i + 1, i + 1) =~= underscored(name@).take(i + 1));
            }
            start = i + 1;
        } else {
            proof {
                assert(underscored(name@).take(i + 1) =~= underscored(name@).take(i as int).push(name@[i as int]));
                assert(name@.subrange(start as int, i + 1) =~= name@.subrange(start as int, i as int).push(name@[i as int]));
            }
        }
        i = i + 1;
    }
    r.append(name.substring_char(start, i));
    assert(underscored(name@).take(i as int) =~= underscored(name@));
    r
}

/// The item table of a valid plugin: its name with hyphens turned into
/// underscores, followed by `_items`.
pub fn safe_table_name(plugin_name: &str) -> (r: Result<String, String>)
    ensures
        match r {
            Ok(t) => plugin_name_error(plugin_name@) is None && t@ == table_name_for(plugin_name@),
            Err(e) => plugin_name_error(plugin_name@) == Some(e@),
        },
        r matches Ok(t) ==> is_safe_identifier(t@),
{
    validate_plugin_name(plugin_name)?;
    let v = chars_of(plugin_name);
    let mut t = underscore_hyphens(&v, plugin_name);
    t.append("_items");
    proof {
        lemma_table_name_safe(plugin_name@);
    }
    Ok(t)
}

/// The item table of a valid plugin name is made of letters, digits and
/// underscores only.
pub proof fn lemma_table_name_safe(plugin: Seq<char>)
    requires
        plugin_name_error(plugin) is None,
    ensures
        is_safe_identifier(table_name_for(plugin)),
{
    reveal_strlit("_items");
    let t = table_name_for(plugin);
    assert forall|i: int| 0 <= i < t.len() implies is_column_name_char(#[trigger] t[i]) by {
        if i < plugin.len() {
            assert(is_plugin_name_char(plugin[i]));
        }
    }
}

/// Distinct valid plugins never share an item table.
pub proof fn lemma_table_names_distinct(a: Seq<char>, b: Seq<char>)
    requires
        plugin_name_error(a) is None,
        plugin_name_error(b) is None,
        table_name_for(a) == table_name_for(b),
    ensures
        a == b,
{
    reveal_strlit("_items");
    let ta = table_name_for(a);
    let tb = table_name_for(b);
    assert(a.len() == b.len()) by {
        assert(ta.len() == a.len() + 6);
        assert(tb.len() == b.len() + 6);
    }
    assert forall|i: int| 0 <= i < a.len() implies a[i] == b[i] by {
        assert(ta[i] == tb[i]);
        assert(is_plugin_name_char(a[i]));
        assert(is_plugin_name_char(b[i]));
    }
    assert(a =~= b);
}

// ---------------------------------------------------------------------------
// Column lists
// ---------------------------------------------------------------------------

/// The first column whose name is invalid, with its error.
pub open spec fn first_column_error(names: Seq<Seq<char>>) -> Option<Seq<char>>
    decreases names.len(),
{
    if names.len() == 0 {
        None
    } else {
        match first_column_error(names.drop_last()) {
            Some(e) => Some(e),
            None => column_name_error(names.last()),
        }
    }
}

/// Validates a list of column names, reporting the first invalid one.
pub fn validate_column_names(columns: &[String]) -> (r: Result<(), String>)
    ensures
        reports(r, first_column_error(views(columns@))),
{
    let mut i: usize = 0;
    while i < columns.len()
        invariant
            i <= columns@.len(),
            first_column_error(views(columns@.take(i as int))) is None,
        decreases columns@.len() - i,
    {
        proof {
            assert(views(columns@.take(i + 1)).drop_last() =~= views(columns@.take(i as int)));
        }
        match validate_column_name(columns[i].as_str()) {
            Ok(()) => {},
            Err(e) => {
                proof {
                    assert(views(columns@).take(i as int) =~= views(columns@.take(i as int)));
                    lemma_first_error_prefix(views(columns@), i as int);
                }
                return Err(e);
            },
        }
        i = i + 1;
    }
    assert(columns@.take(columns@.len() as int) =~= columns@);
    Ok(())
}

proof fn lemma_first_error_prefix(names: Seq<Seq<char>>, i: int)
    requires
        0 <= i < names.len(),
        first_column_error(names.take(i)) is None,
        column_name_error(names[i]) is Some,
    ensures
        first_column_error(names) == column_name_error(names[i]),
    decreases names.len(),
{
    if i == names.len() - 1 {
        assert(names.drop_last() =~= names.take(i));
    } else {
        assert(names.drop_last().take(i) =~= names.take(i));
        lemma_first_error_prefix(names.drop_last(), i);
    }
}

/// Validates column names and joins them with `, ` for a select list.
pub fn safe_join_columns(columns: &[String]) -> (r: Result<String, String>)
    ensures
        match r {
            Ok(s) => first_column_error(views(columns@)) is None && s@ == join_with(views(columns@), ", "@),
            Err(e) => first_column_error(views(columns@)) == Some(e@),
        },
{
    validate_column_names(columns)?;
    Ok(join_strings(columns, ", "))
}


// ---------------------------------------------------------------------------
// Statements
// ---------------------------------------------------------------------------

/// A value bound to a `?` placeholder of a statement.
#[derive(Debug, Clone)]
pub enum SqlArg {
    /// A text value.
    Text(String),
    /// An integer value.
    Int(i64),
    /// The `i`-th of the JSON values that the caller supplied with the
    /// field names (a filter value or an item field).
    Field(usize),
}

pub enum SqlArgView {
    Text(Seq<char>),
    Int(int),
    Field(int),
}

impl View for SqlArg {
    type V = SqlArgView;

    open spec fn view(&self) -> SqlArgView {
        match self {
            SqlArg::Text(s) => SqlArgView::Text(s@),
            SqlArg::Int(i) => SqlArgView::Int(*i as int),
            SqlArg::Field(i) => SqlArgView::Field(*i as int),
        }
    }
}

/// An SQL statement with its arguments, one per `?` placeholder in order.
#[derive(Debug, Clone)]
pub struct SqlQuery {
    pub sql: String,
    pub args: Vec<SqlArg>,
}

pub struct SqlQueryView {
    pub sql: Seq<char>,
    pub args: Seq<SqlArgView>,
}

impl View for SqlQuery {
    type V = SqlQueryView;

    open spec fn view(&self) -> SqlQueryView {
        SqlQueryView { sql: self.sql@, args: self.args@.map_values(|a: SqlArg| a@) }
    }
}

/// The arguments `Field(0), ..., Field(n - 1)`.
pub open spec fn field_args(n: nat) -> Seq<SqlArgView> {
    Seq::new(n, |i: int| SqlArgView::Field(i))
}

/// `name = ?` for each name.
pub open spec fn assignments(names: Seq<Seq<char>>) -> Seq<Seq<char>> {
    names.map_values(|n: Seq<char>| n + " = ?"@)
}

/// The filter part of a select: nothing, or ` WHERE a = ? AND b = ?`.
pub open spec fn where_clause(keys: Seq<Seq<char>>) -> Seq<char> {
    if keys.len() == 0 {
        seq![]
    } else {
        " WHERE "@ + join_with(assignments(keys), " AND "@)
    }
}

/// The ordering part of a select.
pub open spec fn order_clause(column: Option<Seq<char>>, keyword: Option<Seq<char>>) -> Seq<char> {
    match column {
        None => seq![],
        Some(c) => " ORDER BY "@ + c + match keyword {
            Some(k) => " "@ + k,
            None => Seq::<char>::empty(),
        },
    }
}

pub open spec fn limit_clause(limit: Option<i64>, offset: Option<i64>) -> Seq<char> {
    (match limit {
        Some(l) => " LIMIT "@ + decimal(l as int),
        None => Seq::<char>::empty(),
    }) + match offset {
        Some(o) => " OFFSET "@ + decimal(o as int),
        None => Seq::<char>::empty(),
    }
}

pub open spec fn optional_column_error(columns: Option<Seq<Seq<char>>>) -> Option<Seq<char>> {
    match columns {
        Some(c) => first_column_error(c),
        None => None,
    }
}

/// The first error of an item query, in the order the checks are made:
/// table name, selected columns, filter keys, sort column, sort direction.
pub open spec fn items_query_error(
    plugin: Seq<char>,
    columns: Option<Seq<Seq<char>>>,
    filter_keys: Option<Seq<Seq<char>>>,
    sort_column: Option<Seq<char>>,
    sort_direction: Option<Seq<char>>,
) -> Option<Seq<char>> {
    if plugin_name_error(plugin) is Some {
        plugin_name_error(plugin)
    } else if optional_column_error(columns) is Some {
        optional_column_error(columns)
    } else if optional_column_error(filter_keys) is Some {
        optional_column_error(filter_keys)
    } else if sort_column is Some && column_name_error(sort_column->0) is Some {
        column_name_error(sort_column->0)
    } else if sort_column is Some && sort_direction is Some && sort_keyword_of(lowercase(sort_direction->0)) is Err {
        Some(sort_keyword_of(lowercase(sort_direction->0))->Err_0)
    } else {
        None
    }
}

/// The select statement that lists a plugin's items.
pub open spec fn items_query_spec(
    plugin: Seq<char>,
    columns: Option<Seq<Seq<char>>>,
    filter_keys: Option<Seq<Seq<char>>>,
    sort_column: Option<Seq<char>>,
    sort_direction: Option<Seq<char>>,
    limit: Option<i64>,
    offset: Option<i64>,
) -> Result<SqlQueryView, Seq<char>> {
    match items_query_error(plugin, columns, filter_keys, sort_column, sort_direction) {
        Some(e) => Err(e),
        None => {
            let keys = match filter_keys {
                Some(k) => k,
                None => Seq::<Seq<char>>::empty(),
            };
            let cols = match columns {
                Some(c) => join_with(c, ", "@),
                None => "*"@,
            };
            let keyword = match sort_direction {
                Some(d) => Some(sort_keyword_of(lowercase(d))->Ok_0),
                None => None,
            };
            Ok(SqlQueryView {
                sql: "SELECT "@ + cols + " FROM "@ + table_name_for(plugin) + where_clause(keys)
                    + order_clause(sort_column, keyword) + limit_clause(limit, offset),
                args: field_args(keys.len()),
            })
        },
    }
}

/// Every name in the list is a valid column name.
pub open spec fn all_valid_columns(names: Seq<Seq<char>>) -> bool {
    forall|i: int| 0 <= i < names.len() ==> column_name_error(#[trigger] names[i]) is None
}

/// A list with no first invalid name holds only valid names.
pub proof fn lemma_no_first_error(names: Seq<Seq<char>>)
    requires
        first_column_error(names) is None,
    ensures
        all_valid_columns(names),
    decreases names.len(),
{
    if names.len() > 0 {
        lemma_no_first_error(names.drop_last());
        assert forall|i: int| 0 <= i < names.len() implies column_name_error(#[trigger] names[i]) is None by {
            if i < names.len() - 1 {
                assert(names[i] == names.drop_last()[i]);
            }
        }
    }
}

/// An item query is only ever built from identifiers that passed
/// validation: a valid plugin name, and valid names for every selected
/// column, filter key and the sort column; so nothing the caller supplies
/// reaches the statement text unchecked except through `?` placeholders.
pub proof fn lemma_items_query_identifiers_valid(
    plugin: Seq<char>,
    columns: Option<Seq<Seq<char>>>,
    filter_keys: Option<Seq<Seq<char>>>,
    sort_column: Option<Seq<char>>,
    sort_direction: Option<Seq<char>>,
    limit: Option<i64>,
    offset: Option<i64>,
)
    requires
        items_query_spec(plugin, columns, filter_keys, sort_column, sort_direction, limit, offset) is Ok,
    ensures
        plugin_name_error(plugin) is None,
        is_safe_identifier(table_name_for(plugin)),
        columns matches Some(c) ==> all_valid_columns(c),
        filter_keys matches Some(k) ==> all_valid_columns(k),
        sort_column matches Some(s) ==> column_name_error(s) is None,
{
    lemma_table_name_safe(plugin);
    if let Some(c) = columns {
        lemma_no_first_error(c);
    }
    if let Some(k) = filter_keys {
        lemma_no_first_error(k);
    }
}

pub open spec fn opt_views(o: Option<&[String]>) -> Option<Seq<Seq<char>>> {
    match o {
        Some(s) => Some(views(s@)),
        None => None,
    }
}

pub open spec fn opt_view(o: Option<&str>) -> Option<Seq<char>> {
    match o {
        Some(s) => Some(s@),
        None => None,
    }
}

pub open spec fn query_result_view(r: Result<SqlQuery, String>) -> Result<SqlQueryView, Seq<char>> {
    match r {
        Ok(q) => Ok(q@),
        Err(e) => Err(e@),
    }
}

/// Joins `name = ?` assignments with `sep`; the names must already be valid.
fn join_assignments(names: &[String], sep: &str) -> (r: String)
    ensures
        r@ == join_with(assignments(views(names@)), sep@),
{
    let mut r = String::new();
    let mut i: usize = 0;
    while i < names.len()
        invariant
            i <= names@.len(),
            r@ == join_with(assignments(views(names@.take(i as int))), sep@),
        decreases names@.len() - i,
    {
        proof {
            assert(assignments(views(names@.take(i + 1))).drop_last() =~= assignments(views(names@.take(i as int))));
            assert(assignments(views(names@.take(i + 1))).last() == names@[i as int]@ + " = ?"@);
        }
        if i > 0 {
            r.append(sep);
        } else {
            assert(r@ =~= Seq::<char>::empty());
        }
        r.append(names[i].as_str());
        r.append(" = ?");
        i = i + 1;
    }
    assert(names@.take(names@.len() as int) =~= names@);
    r
}

/// `Field(0), ..., Field(n - 1)`.
fn field_arg_list(n: usize) -> (args: Vec<SqlArg>)
    ensures
        args@.map_values(|a: SqlArg| a@) == field_args(n as nat),
{
    let mut args: Vec<SqlArg> = Vec::new();
    let mut i: usize = 0;
    while i < n
        invariant
            i <= n,
            args@.map_values(|a: SqlArg| a@) =~= field_args(i as nat),
        decreases n - i,
    {
        let ghost prev = args@;
        args.push(SqlArg::Field(i));
        assert(args@.map_values(|a: SqlArg| a@) =~= prev.map_values(|a: SqlArg| a@).push(SqlArgView::Field(i as int)));
        i = i + 1;
    }
    args
}

/// The parts of an item query that validation produces.
struct ValidatedItemsQuery {
    table: String,
    cols: String,
    keyword: Option<&'static str>,
}

fn validate_items_query(
    plugin_name: &str,
    columns: Option<&[String]>,
    filter_keys: Option<&[String]>,
    sort_column: Option<&str>,
    sort_direction: Option<&str>,
) -> (r: Result<ValidatedItemsQuery, String>)
    ensures
        match r {
            Err(e) => items_query_error(plugin_name@, opt_views(columns), opt_views(filter_keys), opt_view(sort_column), opt_view(sort_direction)) == Some(e@),
            Ok(v) => {
                &&& items_query_error(plugin_name@, opt_views(columns), opt_views(filter_keys), opt_view(sort_column), opt_view(sort_direction)) is None
                &&& v.table@ == table_name_for(plugin_name@)
                &&& v.cols@ == match columns {
                    Some(c) => join_with(views(c@), ", "@),
                    None => "*"@,
                }
                &&& (sort_column is Some && sort_direction is Some) ==> (v.keyword matches Some(k) && k@ == sort_keyword_of(lowercase(sort_direction->0@))->Ok_0)
                &&& !(sort_column is Some && sort_direction is Some) ==> v.keyword is None
            },
        },
{
    let table = safe_table_name(plugin_name)?;
    let cols = match columns {
        Some(c) => safe_join_columns(c)?,
        None => String::from_str("*"),
    };
    match filter_keys {
        Some(keys) => validate_column_names(keys)?,
        None => {},
    }
    let mut keyword: Option<&'static str> = None;
    match sort_column {
        Some(col) => {
            validate_column_name(col)?;
            match sort_direction {
                Some(dir) => {
                    keyword = Some(validate_sort_direction(dir)?);
                },
                None => {},
            }
        },
        None => {},
    }
    Ok(ValidatedItemsQuery { table, cols, keyword })
}

/// The text of an item select statement.
pub open spec fn items_select_sql(
    cols: Seq<char>,
    table: Seq<char>,
    keys: Seq<Seq<char>>,
    sort_column: Option<Seq<char>>,
    keyword: Option<Seq<char>>,
    limit: Option<i64>,
    offset: Option<i64>,
) -> Seq<char> {
    "SELECT "@ + cols + " FROM "@ + table + where_clause(keys) + order_clause(sort_column, keyword) + limit_clause(limit, offset)
}

fn where_text(keys: &[String]) -> (r: String)
    ensures
        r@ == where_clause(views(keys@)),
{
    if keys.len() > 0 {
        let mut r = String::from_str(" WHERE ");
        let conditions = join_assignments(keys, " AND ");
        r.append(conditions.as_str());
        r
    } else {
        String::new()
    }
}

fn order_text(sort_column: Option<&str>, keyword: Option<&str>) -> (r: String)
    ensures
        r@ == order_clause(opt_view(sort_column), opt_view(keyword)),
{
    match sort_column {
        Some(col) => {
            let mut r = String::from_str(" ORDER BY ");
            r.append(col);
            match keyword {
                Some(k) => {
                    r.append(" ");
                    r.append(k);
                },
                None => {},
            }
            r
        },
        None => String::new(),
    }
}

fn limit_text(limit: Option<i64>, offset: Option<i64>) -> (r: String)
    ensures
        r@ == limit_clause(limit, offset),
{
    let mut r = String::new();
    match limit {
        Some(l) => {
            r.append(" LIMIT ");
            push_decimal_i64(&mut r, l);
        },
        None => {},
    }
    let ghost first = r@;
    match offset {
        Some(o) => {
            r.append(" OFFSET ");
            push_decimal_i64(&mut r, o);
        },
        None => {},
    }
    assert(r@ =~= first + match offset {
        Some(o) => " OFFSET "@ + decimal(o as int),
        None => Seq::<char>::empty(),
    });
    r
}

fn assemble_items_query(
    cols: &str,
    table: &str,
    keys: &[String],
    sort_column: Option<&str>,
    keyword: Option<&str>,
    limit: Option<i64>,
    offset: Option<i64>,
) -> (sql: String)
    ensures
        sql@ == items_select_sql(cols@, table@, views(keys@), opt_view(sort_column), opt_view(keyword), limit, offset),
{
    let w = where_text(keys);
    let o = order_text(sort_column, keyword);
    let l = limit_text(limit, offset);
    let mut sql = String::from_str("SELECT ");
    sql.append(cols);
    sql.append(" FROM ");
    sql.append(table);
    sql.append(w.as_str());
    sql.append(o.as_str());
    sql.append(l.as_str());
    sql
}

/// Builds the select statement for `query_items`: the chosen columns (or
/// `*`) of the plugin's item table, one `= ?` condition per filter key
/// (bound to the filter values in order), an optional ordering, and an
/// optional limit and offset. Every identifier is validated first.
pub fn build_items_query(
    plugin_name: &str,
    columns: Option<&[String]>,
    filter_keys: Option<&[String]>,
    sort_column: Option<&str>,
    sort_direction: Option<&str>,
    limit: Option<i64>,
    offset: Option<i64>,
) -> (r: Result<SqlQuery, String>)
    ensures
        query_result_view(r) == items_query_spec(
            plugin_name@,
            opt_views(columns),
            opt_views(filter_keys),
            opt_view(sort_column),
            opt_view(sort_direction),
            limit,
            offset,
        ),
        r matches Ok(q) ==> binds_each_placeholder(q@),
{
    proof {
        if items_query_spec(plugin_name@, opt_views(columns), opt_views(filter_keys), opt_view(sort_column), opt_view(sort_direction), limit, offset) is Ok {
            lemma_items_query_binds_placeholders(
                plugin_name@,
                opt_views(columns),
                opt_views(filter_keys),
                opt_view(sort_column),
                opt_view(sort_direction),
                limit,
                offset,
            );
        }
    }
    let v = validate_items_query(plugin_name, columns, filter_keys, sort_column, sort_direction)?;
    let empty: Vec<String> = Vec::new();
    let keys: &[String] = match filter_keys {
        Some(k) => k,
        None => empty.as_slice(),
    };
    let keyword: Option<&str> = match sort_column {
        Some(_) => v.keyword,
        None => None,
    };
    let sql = assemble_items_query(v.cols.as_str(), v.table.as_str(), keys, sort_column, keyword, limit, offset);
    let args = field_arg_list(keys.len());
    let q = SqlQuery { sql, args };
    proof {
        assert(views(empty@) =~= Seq::<Seq<char>>::empty());
    }
    Ok(q)
}


// ---------------------------------------------------------------------------
// Item mutations
// ---------------------------------------------------------------------------

/// A lowercase hexadecimal digit or a hyphen.
pub open spec fn is_uuid_text_char(c: char) -> bool {
    ('0' <= c && c <= '9') || ('a' <= c && c <= 'f') || c == '-'
}

/// The hyphenated text of a UUID: 36 lowercase hexadecimal digits and
/// hyphens.
pub open spec fn is_uuid_text(s: Seq<char>) -> bool {
    s.len() == 36 && forall|i: int| 0 <= i < 36 ==> is_uuid_text_char(#[trigger] s[i])
}

/// Calls `uuid::Uuid::new_v4` and formats the id with its `Display`
/// implementation. Trusted: the id is random, so only its shape is stated:
/// the hyphenated form of 36 lowercase hexadecimal digits and hyphens.
#[verifier::external_body]
fn new_item_id() -> (id: String)
    ensures
        id@.len() == 36,
        forall|i: int| 0 <= i < 36 ==> is_uuid_text_char(#[trigger] id@[i]),
{
    uuid::Uuid::new_v4().to_string()
}

/// The statement a mutation runs, and the id of the item it concerns.
#[derive(Debug, Clone)]
pub enum ItemMutation {
    /// Insert a new item with the generated `id`, then read it back.
    Create { id: String, insert: SqlQuery, fetch: SqlQuery },
    /// Update fields of the item `id`.
    Update { id: String, statement: SqlQuery },
    /// Delete the item `id`.
    Delete { id: String, statement: SqlQuery },
}

pub enum ItemMutationView {
    Create { id: Seq<char>, insert: SqlQueryView, fetch: SqlQueryView },
    Update { id: Seq<char>, statement: SqlQueryView },
    Delete { id: Seq<char>, statement: SqlQueryView },
}

impl View for ItemMutation {
    type V = ItemMutationView;

    open spec fn view(&self) -> ItemMutationView {
        match self {
            ItemMutation::Create { id, insert, fetch } => ItemMutationView::Create { id: id@, insert: insert@, fetch: fetch@ },
            ItemMutation::Update { id, statement } => ItemMutationView::Update { id: id@, statement: statement@ },
            ItemMutation::Delete { id, statement } => ItemMutationView::Delete { id: id@, statement: statement@ },
        }
    }
}

pub open spec fn mutation_result_view(r: Result<ItemMutation, String>) -> Result<ItemMutationView, Seq<char>> {
    match r {
        Ok(m) => Ok(m@),
        Err(e) => Err(e@),
    }
}

/// The numbered placeholders `?2, ?3, ...` for `n` fields.
pub open spec fn numbered_placeholders(n: nat) -> Seq<Seq<char>> {
    Seq::new(n, |i: int| "?"@ + decimal(i + 2))
}

/// The insert statement of a new item with the given field names.
pub open spec fn insert_statement(table: Seq<char>, new_id: Seq<char>, fields: Seq<Seq<char>>) -> SqlQueryView {
    SqlQueryView {
        sql: "INSERT INTO "@ + table + " ("@ + join_with(seq!["id"@, "created_at"@] + fields, ", "@) + ") VALUES ("@
            + join_with(seq!["?1"@, "datetime('now')"@] + numbered_placeholders(fields.len()), ", "@) + ")"@,
        args: seq![SqlArgView::Text(new_id)] + field_args(fields.len()),
    }
}

/// The statement that reads back one item.
pub open spec fn fetch_statement(table: Seq<char>, id: Seq<char>) -> SqlQueryView {
    SqlQueryView { sql: "SELECT * FROM "@ + table + " WHERE id = ?1"@, args: seq![SqlArgView::Text(id)] }
}

pub open spec fn update_statement(table: Seq<char>, id: Seq<char>, fields: Seq<Seq<char>>) -> SqlQueryView {
    SqlQueryView {
        sql: "UPDATE "@ + table + " SET "@ + join_with(assignments(fields), ", "@) + " WHERE id = ?"@,
        args: field_args(fields.len()).push(SqlArgView::Text(id)),
    }
}

pub open spec fn delete_statement(table: Seq<char>, id: Seq<char>) -> SqlQueryView {
    SqlQueryView { sql: "DELETE FROM "@ + table + " WHERE id = ?"@, args: seq![SqlArgView::Text(id)] }
}

/// What `mutate_item` does for an operation, given the id it would
/// generate for a new item: the statements to run, or the error.
pub open spec fn mutation_spec(
    plugin: Seq<char>,
    operation: Seq<char>,
    id: Option<Seq<char>>,
    fields: Seq<Seq<char>>,
    new_id: Seq<char>,
) -> Result<ItemMutationView, Seq<char>> {
    let table = table_name_for(plugin);
    if plugin_name_error(plugin) is Some {
        Err(plugin_name_error(plugin)->0)
    } else if operation == "create"@ {
        if first_column_error(fields) is Some {
            Err(first_column_error(fields)->0)
        } else {
            Ok(ItemMutationView::Create {
                id: new_id,
                insert: insert_statement(table, new_id, fields),
                fetch: fetch_statement(table, new_id),
            })
        }
    } else if operation == "update"@ {
        match id {
            None => Err("Item ID required for update"@),
            Some(i) => if item_id_error(i) is Some {
                Err(item_id_error(i)->0)
            } else if first_column_error(fields) is Some {
                Err(first_column_error(fields)->0)
            } else if fields.len() == 0 {
                Err("No fields to update"@)
            } else {
                Ok(ItemMutationView::Update { id: i, statement: update_statement(table, i, fields) })
            },
        }
    } else if operation == "delete"@ {
        match id {
            None => Err("Item ID required for delete"@),
            Some(i) => if item_id_error(i) is Some {
                Err(item_id_error(i)->0)
            } else {
                Ok(ItemMutationView::Delete { id: i, statement: delete_statement(table, i) })
            },
        }
    } else {
        Err("Unknown operation: "@ + operation)
    }
}

/// Each field's value is bound to the mark that follows that field's name.
/// A created item binds its new id first and then field `k` to the
/// `k`-th field's mark; an update sets field `k` to the `k`-th field's value,
/// in the order the fields are given, and binds the item id last; the
/// read-back and the delete bind only the item id. The update names every
/// field, in order, each followed by its own mark.
pub proof fn lemma_mutation_binds_fields_in_order(
    plugin: Seq<char>,
    operation: Seq<char>,
    id: Option<Seq<char>>,
    fields: Seq<Seq<char>>,
    new_id: Seq<char>,
)
    requires
        mutation_spec(plugin, operation, id, fields, new_id) is Ok,
    ensures
        match mutation_spec(plugin, operation, id, fields, new_id)->Ok_0 {
            ItemMutationView::Create { id: created, insert, fetch } => {
                &&& created == new_id
                &&& insert.args.len() == fields.len() + 1
                &&& insert.args[0] == SqlArgView::Text(new_id)
                &&& forall|k: int| 0 <= k < fields.len() ==> #[trigger] insert.args[k + 1] == SqlArgView::Field(k)
                &&& fetch.args =~= seq![SqlArgView::Text(new_id)]
            },
            ItemMutationView::Update { id: item, statement } => {
                &&& id == Some(item)
                &&& statement.args.len() == fields.len() + 1
                &&& forall|k: int| 0 <= k < fields.len() ==> #[trigger] statement.args[k] == SqlArgView::Field(k)
                &&& statement.args[fields.len() as int] == SqlArgView::Text(item)
                &&& statement.sql == "UPDATE "@ + table_name_for(plugin) + " SET "@
                    + join_with(Seq::new(fields.len(), |k: int| fields[k] + " = ?"@), ", "@) + " WHERE id = ?"@
            },
            ItemMutationView::Delete { id: item, statement } => {
                &&& id == Some(item)
                &&& statement.args =~= seq![SqlArgView::Text(item)]
            },
        },
{
    match mutation_spec(plugin, operation, id, fields, new_id)->Ok_0 {
        ItemMutationView::Create { insert, .. } => {
            assert forall|k: int| 0 <= k < fields.len() implies #[trigger] insert.args[k + 1] == SqlArgView::Field(k) by {
                assert(insert.args[k + 1] == field_args(fields.len())[k]);
            }
        },
        ItemMutationView::Update { statement, .. } => {
            assert(assignments(fields) =~= Seq::new(fields.len(), |k: int| fields[k] + " = ?"@));
            assert forall|k: int| 0 <= k < fields.len() implies #[trigger] statement.args[k] == SqlArgView::Field(k) by {
                assert(statement.args[k] == field_args(fields.len())[k]);
            }
        },
        ItemMutationView::Delete { .. } => {},
    }
}

/// The filter values of an item query are bound in the order of their
/// keys: the `k`-th mark, which follows the `k`-th key, takes the `k`-th
/// value, and there is one value per key.
pub proof fn lemma_items_query_binds_filters_in_order(
    plugin: Seq<char>,
    columns: Option<Seq<Seq<char>>>,
    filter_keys: Option<Seq<Seq<char>>>,
    sort_column: Option<Seq<char>>,
    sort_direction: Option<Seq<char>>,
    limit: Option<i64>,
    offset: Option<i64>,
)
    requires
        items_query_spec(plugin, columns, filter_keys, sort_column, sort_direction, limit, offset) is Ok,
    ensures
        ({
            let q = items_query_spec(plugin, columns, filter_keys, sort_column, sort_direction, limit, offset)->Ok_0;
            let n = match filter_keys {
                Some(k) => k.len(),
                None => 0,
            };
            &&& q.args.len() == n
            &&& forall|k: int| 0 <= k < n ==> #[trigger] q.args[k] == SqlArgView::Field(k)
        }),
{
}

fn insert_sql(table: &str, fields: &[String]) -> (sql: String)
    ensures
        sql@ == "INSERT INTO "@ + table@ + " ("@ + join_with(seq!["id"@, "created_at"@] + views(fields@), ", "@)
            + ") VALUES ("@ + join_with(seq!["?1"@, "datetime('now')"@] + numbered_placeholders(fields@.len()), ", "@) + ")"@,
{
    let mut names = String::from_str("id, created_at");
    let mut marks = String::from_str("?1, datetime('now')");
    proof {
        assert(join_with(seq!["id"@, "created_at"@], ", "@) =~= "id"@ + ", "@ + "created_at"@) by {
            assert(seq!["id"@, "created_at"@].drop_last() =~= seq!["id"@]);
            assert(join_with(seq!["id"@], ", "@) == "id"@);
        }
        assert(join_with(seq!["?1"@, "datetime('now')"@], ", "@) =~= "?1"@ + ", "@ + "datetime('now')"@) by {
            assert(seq!["?1"@, "datetime('now')"@].drop_last() =~= seq!["?1"@]);
            assert(join_with(seq!["?1"@], ", "@) == "?1"@);
        }
        reveal_strlit("id, created_at");
        reveal_strlit("id");
        reveal_strlit(", ");
        reveal_strlit("created_at");
        reveal_strlit("?1, datetime('now')");
        reveal_strlit("?1");
        reveal_strlit("datetime('now')");
        assert(names@ =~= join_with(seq!["id"@, "created_at"@] + views(fields@.take(0)), ", "@)) by {
            assert(seq!["id"@, "created_at"@] + views(fields@.take(0)) =~= seq!["id"@, "created_at"@]);
        }
        assert(marks@ =~= join_with(seq!["?1"@, "datetime('now')"@] + numbered_placeholders(0), ", "@)) by {
            assert(seq!["?1"@, "datetime('now')"@] + numbered_placeholders(0) =~= seq!["?1"@, "datetime('now')"@]);
        }
    }
    let mut i: usize = 0;
    while i < fields.len()
        invariant
            i <= fields@.len(),
            names@ == join_with(seq!["id"@, "created_at"@] + views(fields@.take(i as int)), ", "@),
            marks@ == join_with(seq!["?1"@, "datetime('now')"@] + numbered_placeholders(i as nat), ", "@),
        decreases fields@.len() - i,
    {
        let ghost n0 = seq!["id"@, "created_at"@] + views(fields@.take(i as int));
        let ghost m0 = seq!["?1"@, "datetime('now')"@] + numbered_placeholders(i as nat);
        names.append(", ");
        names.append(fields[i].as_str());
        marks.append(", ?");
        push_decimal_usize(&mut marks, i, 2);
        proof {
            reveal_strlit(", ?");
            reveal_strlit("?");
            reveal_strlit(", ");
            assert(", ?"@ =~= ", "@ + "?"@);
            let n1 = seq!["id"@, "created_at"@] + views(fields@.take(i + 1));
            assert(n1.drop_last() =~= n0);
            assert(n1.last() == fields@[i as int]@);
            let m1 = seq!["?1"@, "datetime('now')"@] + numbered_placeholders((i + 1) as nat);
            assert(m1.drop_last() =~= m0);
            assert(m1.last() == "?"@ + decimal((i + 2) as int));
            assert(names@ =~= join_with(n1, ", "@));
            assert(marks@ =~= join_with(m1, ", "@));
        }
        i = i + 1;
    }
    assert(fields@.take(fields@.len() as int) =~= fields@);
    let mut sql = String::from_str("INSERT INTO ");
    sql.append(table);
    sql.append(" (");
    sql.append(names.as_str());
    sql.append(") VALUES (");
    sql.append(marks.as_str());
    sql.append(")");
    sql
}

/// Plans a mutation of a plugin's items with a given id for a new item.
pub fn plan_item_mutation_with_id(
    plugin_name: &str,
    operation: &str,
    id: Option<&str>,
    fields: &[String],
    new_id: &str,
) -> (r: Result<ItemMutation, String>)
    ensures
        mutation_result_view(r) == mutation_spec(plugin_name@, operation@, opt_view(id), views(fields@), new_id@),
        r matches Ok(m) ==> mutation_binds_placeholders(m@),
{
    proof {
        if mutation_spec(plugin_name@, operation@, opt_view(id), views(fields@), new_id@) is Ok {
            lemma_mutation_binds_placeholders(plugin_name@, operation@, opt_view(id), views(fields@), new_id@);
        }
    }
    let table = safe_table_name(plugin_name)?;
    if str_eq(operation, "create") {
        validate_column_names(fields)?;
        let sql = insert_sql(table.as_str(), fields);
        let mut args: Vec<SqlArg> = Vec::new();
        args.push(SqlArg::Text(String::from_str(new_id)));
        let mut rest = field_arg_list(fields.len());
        let ghost a0 = args@;
        let ghost r0 = rest@;
        args.append(&mut rest);
        proof {
            assert(args@.map_values(|a: SqlArg| a@) =~= seq![SqlArgView::Text(new_id@)] + r0.map_values(|a: SqlArg| a@));
        }
        let insert = SqlQuery { sql, args };
        let mut fetch_sql = String::from_str("SELECT * FROM ");
        fetch_sql.append(table.as_str());
        fetch_sql.append(" WHERE id = ?1");
        let mut fetch_args: Vec<SqlArg> = Vec::new();
        fetch_args.push(SqlArg::Text(String::from_str(new_id)));
        let fetch = SqlQuery { sql: fetch_sql, args: fetch_args };
        proof {
            assert(fetch@.args =~= seq![SqlArgView::Text(new_id@)]);
            assert(insert@ == insert_statement(table_name_for(plugin_name@), new_id@, views(fields@)));
        }
        Ok(ItemMutation::Create { id: String::from_str(new_id), insert, fetch })
    } else if str_eq(operation, "update") {
        match id {
            None => Err(String::from_str("Item ID required for update")),
            Some(item_id) => {
                validate_item_id(item_id)?;
                validate_column_names(fields)?;
                if fields.len() == 0 {
                    return Err(String::from_str("No fields to update"));
                }
                let mut sql = String::from_str("UPDATE ");
                sql.append(table.as_str());
                sql.append(" SET ");
                let sets = join_assignments(fields, ", ");
                sql.append(sets.as_str());
                sql.append(" WHERE id = ?");
                let mut args = field_arg_list(fields.len());
                let ghost a0 = args@;
                args.push(SqlArg::Text(String::from_str(item_id)));
                proof {
                    assert(args@.map_values(|a: SqlArg| a@) =~= a0.map_values(|a: SqlArg| a@).push(SqlArgView::Text(item_id@)));
                }
                let statement = SqlQuery { sql, args };
                Ok(ItemMutation::Update { id: String::from_str(item_id), statement })
            },
        }
    } else if str_eq(operation, "delete") {
        match id {
            None => Err(String::from_str("Item ID required for delete")),
            Some(item_id) => {
                validate_item_id(item_id)?;
                let mut sql = String::from_str("DELETE FROM ");
                sql.append(table.as_str());
                sql.append(" WHERE id = ?");
                let mut args: Vec<SqlArg> = Vec::new();
                args.push(SqlArg::Text(String::from_str(item_id)));
                let statement = SqlQuery { sql, args };
                proof {
                    assert(statement@.args =~= seq![SqlArgView::Text(item_id@)]);
                }
                Ok(ItemMutation::Delete { id: String::from_str(item_id), statement })
            },
        }
    } else {
        let mut msg = String::from_str("Unknown operation: ");
        msg.append(operation);
        Err(msg)
    }
}

/// Plans a mutation of a plugin's items (`create`, `update` or `delete`),
/// generating a fresh random id when an item is created. `fields` are the
/// names of the JSON fields supplied, in order; their values are bound
/// through `SqlArg::Field`.
pub fn plan_item_mutation(
    plugin_name: &str,
    operation: &str,
    id: Option<&str>,
    fields: &[String],
) -> (r: Result<ItemMutation, String>)
    ensures
        exists|new_id: Seq<char>| mutation_result_view(r) == mutation_spec(plugin_name@, operation@, opt_view(id), views(fields@), new_id),
        r matches Ok(ItemMutation::Create { id: new_id, .. }) ==> is_uuid_text(new_id@) && item_id_error(new_id@) is None,
        r matches Ok(m) ==> mutation_binds_placeholders(m@),
{
    let new_id = if str_eq(operation, "create") {
        new_item_id()
    } else {
        String::new()
    };
    let r = plan_item_mutation_with_id(plugin_name, operation, id, fields, new_id.as_str());
    proof {
        if r is Ok && r->Ok_0 is Create {
            assert(r->Ok_0->Create_id@ == new_id@);
            reveal_strlit("create");
            assert(new_id@.len() == 36);
            assert forall|i: int| 0 <= i < new_id@.len() implies is_item_id_char(#[trigger] new_id@[i]) by {
                assert(is_uuid_text_char(new_id@[i]));
            }
            assert(vstd::utf8::is_ascii_chars(new_id@)) by {
                assert forall|i: int| 0 <= i < new_id@.len() implies '\0' <= #[trigger] new_id@[i] <= '\u{7f}' by {
                    assert(is_uuid_text_char(new_id@[i]));
                }
            }
            lemma_ascii_utf8_len(new_id@);
        }
    }
    r
}

/// An ASCII text takes one byte per character.
proof fn lemma_ascii_utf8_len(s: Seq<char>)
    requires
        vstd::utf8::is_ascii_chars(s),
    ensures
        vstd::utf8::encode_utf8(s).len() == s.len(),
{
    vstd::utf8::is_ascii_chars_encode_utf8(s);
}


// ---------------------------------------------------------------------------
// AI classification action
// ---------------------------------------------------------------------------

/// The name of the first column of type `main`.
pub open spec fn first_main_column(cols: Seq<PluginColumn>) -> Option<Seq<char>>
    decreases cols.len(),
{
    if cols.len() == 0 {
        None
    } else if cols[0].col_type@ == "main"@ {
        Some(cols[0].name@)
    } else {
        first_main_column(cols.drop_first())
    }
}

/// The names of the columns of type `secondary`, in order.
pub open spec fn secondary_column_names(cols: Seq<PluginColumn>) -> Seq<Seq<char>>
    decreases cols.len(),
{
    if cols.len() == 0 {
        seq![]
    } else {
        secondary_column_names(cols.drop_last()) + if cols.last().col_type@ == "secondary"@ {
            seq![cols.last().name@]
        } else {
            Seq::<Seq<char>>::empty()
        }
    }
}

/// `f` maps each listed name to a `secondary` column of that name, in the
/// order of the columns, and every `secondary` column is listed.
pub open spec fn lists_secondary_columns(f: spec_fn(int) -> int, names: Seq<Seq<char>>, cols: Seq<PluginColumn>) -> bool {
    &&& forall|p: int| 0 <= p < names.len() ==> {
        &&& 0 <= #[trigger] f(p) < cols.len()
        &&& cols[f(p)].col_type@ == "secondary"@
        &&& names[p] == cols[f(p)].name@
    }
    &&& forall|p: int, q: int| 0 <= p < q < names.len() ==> #[trigger] f(p) < #[trigger] f(q)
    &&& forall|i: int| 0 <= i < cols.len() && (#[trigger] cols[i]).col_type@ == "secondary"@
        ==> exists|p: int| 0 <= p < names.len() && #[trigger] f(p) == i
}

/// The secondary columns are the names of exactly the columns of type
/// `secondary`, each once, in column order.
pub proof fn lemma_secondary_columns_in_order(cols: Seq<PluginColumn>)
    ensures
        exists|f: spec_fn(int) -> int| lists_secondary_columns(f, secondary_column_names(cols), cols),
    decreases cols.len(),
{
    let names = secondary_column_names(cols);
    if cols.len() == 0 {
        let f = |p: int| p;
        assert(lists_secondary_columns(f, names, cols));
    } else {
        let init = cols.drop_last();
        let n = init.len() as int;
        lemma_secondary_columns_in_order(init);
        let n0 = secondary_column_names(init);
        let f0 = choose|f: spec_fn(int) -> int| lists_secondary_columns(f, n0, init);
        let f = |p: int| if p < n0.len() { f0(p) } else { n };
        assert forall|p: int| 0 <= p < names.len() implies {
            &&& 0 <= #[trigger] f(p) < cols.len()
            &&& cols[f(p)].col_type@ == "secondary"@
            &&& names[p] == cols[f(p)].name@
        } by {
            if p < n0.len() {
                assert(names[p] == n0[p]);
                assert(init[f0(p)] == cols[f0(p)]);
            } else {
                assert(cols.last().col_type@ == "secondary"@);
                assert(names[p] == cols.last().name@);
            }
        }
        assert forall|p: int, q: int| 0 <= p < q < names.len() implies #[trigger] f(p) < #[trigger] f(q) by {
            if q < n0.len() {
                assert(f(p) == f0(p) && f(q) == f0(q));
            } else {
                assert(f(p) == f0(p));
            }
        }
        assert forall|i: int| 0 <= i < cols.len() && (#[trigger] cols[i]).col_type@ == "secondary"@
            implies exists|p: int| 0 <= p < names.len() && #[trigger] f(p) == i by {
            if i < n {
                assert(init[i] == cols[i]);
                let p = choose|p: int| 0 <= p < n0.len() && #[trigger] f0(p) == i;
                assert(f(p) == i);
            } else {
                let p = n0.len() as int;
                assert(names.len() == n0.len() + 1);
                assert(f(p) == i);
            }
        }
        assert(lists_secondary_columns(f, names, cols));
    }
}

/// The main column is the name of the first column whose type is `main`;
/// there is one exactly when some column has that type.
pub proof fn lemma_first_main_column_is_first(cols: Seq<PluginColumn>)
    ensures
        first_main_column(cols) is Some <==> exists|i: int| 0 <= i < cols.len() && (#[trigger] cols[i]).col_type@ == "main"@,
        first_main_column(cols) is Some ==> exists|i: int| {
            &&& 0 <= i < cols.len()
            &&& (#[trigger] cols[i]).col_type@ == "main"@
            &&& first_main_column(cols) == Some(cols[i].name@)
            &&& forall|k: int| 0 <= k < i ==> (#[trigger] cols[k]).col_type@ != "main"@
        },
    decreases cols.len(),
{
    if cols.len() > 0 {
        let rest = cols.drop_first();
        lemma_first_main_column_is_first(rest);
        if cols[0].col_type@ == "main"@ {
            assert(cols[0].col_type@ == "main"@);
        } else {
            if exists|i: int| 0 <= i < cols.len() && (#[trigger] cols[i]).col_type@ == "main"@ {
                let i = choose|i: int| 0 <= i < cols.len() && (#[trigger] cols[i]).col_type@ == "main"@;
                assert(rest[i - 1] == cols[i]);
            }
            if first_main_column(cols) is Some {
                let j = choose|j: int| {
                    &&& 0 <= j < rest.len()
                    &&& (#[trigger] rest[j]).col_type@ == "main"@
                    &&& first_main_column(rest) == Some(rest[j].name@)
                    &&& forall|k: int| 0 <= k < j ==> (#[trigger] rest[k]).col_type@ != "main"@
                };
                assert(cols[j + 1] == rest[j]);
                assert forall|k: int| 0 <= k < j + 1 implies (#[trigger] cols[k]).col_type@ != "main"@ by {
                    if k > 0 {
                        assert(cols[k] == rest[k - 1]);
                    }
                }
                assert(rest[j].col_type@ == "main"@);
            }
        }
    }
}

/// The columns whose values describe an item to the model: the first
/// `main` column, and every `secondary` column in order.
pub fn prompt_columns(columns: &[PluginColumn]) -> (r: (Option<String>, Vec<String>))
    ensures
        opt_string_view(r.0) == first_main_column(columns@),
        views(r.1@) == secondary_column_names(columns@),
{
    let mut main: Option<String> = None;
    let mut secondary: Vec<String> = Vec::new();
    let mut i: usize = 0;
    assert(columns@.skip(0) =~= columns@);
    while i < columns.len()
        invariant
            i <= columns@.len(),
            views(secondary@) == secondary_column_names(columns@.take(i as int)),
            main is None ==> first_main_column(columns@) == first_main_column(columns@.skip(i as int)),
            main is Some ==> opt_string_view(main) == first_main_column(columns@),
        decreases columns@.len() - i,
    {
        let c = &columns[i];
        proof {
            assert(columns@.take(i + 1).drop_last() =~= columns@.take(i as int));
            assert(columns@.skip(i as int).drop_first() =~= columns@.skip(i + 1));
            assert(columns@.skip(i as int)[0] == columns@[i as int]);
        }
        if main.is_none() && str_eq(c.col_type.as_str(), "main") {
            main = Some(c.name.clone());
        }
        if str_eq(c.col_type.as_str(), "secondary") {
            let ghost prev = secondary@;
            secondary.push(c.name.clone());
            assert(views(secondary@) =~= views(prev).push(c.name@));
        }
        i = i + 1;
    }
    assert(columns@.take(columns@.len() as int) =~= columns@);
    (main, secondary)
}

pub open spec fn opt_string_view(o: Option<String>) -> Option<Seq<char>> {
    match o {
        Some(s) => Some(s@),
        None => None,
    }
}

/// The cognitive axes offered to the model, one bullet per line.
pub open spec fn cognitive_axis_bullets() -> Seq<char> {
    "- require (needs immediate attention)\n- review (needs to be reviewed)\n- delegate (should be forwarded to someone else)\n- schedule (needs to be scheduled)\n- call (needs a phone call)\n- meeting (needs a meeting)\n- delete (can be deleted)"@
}

/// The system prompt of the classification action for a plugin, listing
/// the fixed cognitive axes and the user's context axes.
pub open spec fn system_prompt_spec(plugin: Seq<char>, context_axes: Seq<Seq<char>>) -> Seq<char> {
    "You are a cognitive axis classifier for a plugin called '"@ + plugin
        + "'.\nYour task is to classify items based on their content.\n\nCOGNITIVE AXES (choose one):\n"@
        + cognitive_axis_bullets()
        + "\n\nCONTEXT AXES (choose one or 'General' if none applies):\n"@
        + join_with(context_axes, "\n"@)
        + "\n\nRespond with ONLY the cognitive axis and context axis in this format:\ncognitive_axis: <axis>\ncontext_axis: <context>\n\nFor example:\ncognitive_axis: review\ncontext_axis: Work"@
}

proof fn lemma_occurs_in_middle(a: Seq<char>, b: Seq<char>, c: Seq<char>)
    ensures
        has_substring(a + b + c, b),
{
    let s = a + b + c;
    assert(s.subrange(a.len() as int, (a.len() + b.len()) as int) =~= b);
    assert(occurs_at(s, b, a.len() as int));
}

proof fn lemma_occurs_extended(s: Seq<char>, needle: Seq<char>, before: Seq<char>, after: Seq<char>)
    requires
        has_substring(s, needle),
    ensures
        has_substring(before + s + after, needle),
{
    let i = choose|i: int| #[trigger] occurs_at(s, needle, i);
    let t = before + s + after;
    let j = before.len() + i;
    assert(t.subrange(j, j + needle.len()) =~= s.subrange(i, i + needle.len()));
    assert(occurs_at(t, needle, j));
}

proof fn lemma_join_holds_each_part(parts: Seq<Seq<char>>, sep: Seq<char>, k: int)
    requires
        0 <= k < parts.len(),
    ensures
        has_substring(join_with(parts, sep), parts[k]),
    decreases parts.len(),
{
    if parts.len() == 1 {
        lemma_occurs_in_middle(Seq::<char>::empty(), parts[0], Seq::<char>::empty());
        assert(Seq::<char>::empty() + parts[0] + Seq::<char>::empty() =~= parts[0]);
    } else {
        let init = parts.drop_last();
        let j = join_with(init, sep);
        if k == parts.len() - 1 {
            lemma_occurs_in_middle(j + sep, parts.last(), Seq::<char>::empty());
            assert(j + sep + parts.last() + Seq::<char>::empty() =~= j + sep + parts.last());
        } else {
            lemma_join_holds_each_part(init, sep, k);
            assert(init[k] == parts[k]);
            lemma_occurs_extended(j, parts[k], Seq::<char>::empty(), sep + parts.last());
            assert(Seq::<char>::empty() + j + (sep + parts.last()) =~= j + sep + parts.last());
        }
    }
}

proof fn lemma_bullets_offer(label: Seq<char>, at: int)
    requires
        0 <= at,
        at + label.len() <= cognitive_axis_bullets().len(),
        cognitive_axis_bullets().subrange(at, at + label.len()) =~= label,
    ensures
        has_substring(cognitive_axis_bullets(), label),
{
    assert(occurs_at(cognitive_axis_bullets(), label, at));
}

/// The system prompt offers what the classification reads back: it names
/// the plugin, every context axis of the user, and each of the seven
/// cognitive axis keywords.
pub proof fn lemma_system_prompt_offers_axes(plugin: Seq<char>, context_axes: Seq<Seq<char>>)
    ensures
        has_substring(system_prompt_spec(plugin, context_axes), plugin),
        forall|k: int| 0 <= k < context_axes.len() ==> has_substring(system_prompt_spec(plugin, context_axes), #[trigger] context_axes[k]),
        has_substring(system_prompt_spec(plugin, context_axes), "require"@),
        has_substring(system_prompt_spec(plugin, context_axes), "review"@),
        has_substring(system_prompt_spec(plugin, context_axes), "delegate"@),
        has_substring(system_prompt_spec(plugin, context_axes), "delete"@),
        has_substring(system_prompt_spec(plugin, context_axes), "schedule"@),
        has_substring(system_prompt_spec(plugin, context_axes), "call"@),
        has_substring(system_prompt_spec(plugin, context_axes), "meeting"@),
{
    let p1 = "You are a cognitive axis classifier for a plugin called '"@;
    let p2 = "'.\nYour task is to classify items based on their content.\n\nCOGNITIVE AXES (choose one):\n"@;
    let bullets = cognitive_axis_bullets();
    let p3 = "\n\nCONTEXT AXES (choose one or 'General' if none applies):\n"@;
    let axes = join_with(context_axes, "\n"@);
    let p4 = "\n\nRespond with ONLY the cognitive axis and context axis in this format:\ncognitive_axis: <axis>\ncontext_axis: <context>\n\nFor example:\ncognitive_axis: review\ncontext_axis: Work"@;
    let prompt = system_prompt_spec(plugin, context_axes);
    assert(prompt == p1 + plugin + p2 + bullets + p3 + axes + p4);
    assert(prompt =~= p1 + plugin + (p2 + bullets + p3 + axes + p4));
    lemma_occurs_in_middle(p1, plugin, p2 + bullets + p3 + axes + p4);
    assert forall|k: int| 0 <= k < context_axes.len() implies has_substring(prompt, #[trigger] context_axes[k]) by {
        lemma_join_holds_each_part(context_axes, "\n"@, k);
        lemma_occurs_extended(axes, context_axes[k], p1 + plugin + p2 + bullets + p3, p4);
    }
    reveal_strlit("- require (needs immediate attention)\n- review (needs to be reviewed)\n- delegate (should be forwarded to someone else)\n- schedule (needs to be scheduled)\n- call (needs a phone call)\n- meeting (needs a meeting)\n- delete (can be deleted)");
    reveal_strlit("require");
    reveal_strlit("review");
    reveal_strlit("delegate");
    reveal_strlit("delete");
    reveal_strlit("schedule");
    reveal_strlit("call");
    reveal_strlit("meeting");
    lemma_bullets_offer("require"@, 2);
    lemma_bullets_offer("review"@, 40);
    lemma_bullets_offer("delegate"@, 72);
    lemma_bullets_offer("delete"@, 212);
    lemma_bullets_offer("schedule"@, 121);
    lemma_bullets_offer("call"@, 156);
    lemma_bullets_offer("meeting"@, 184);
    let before = p1 + plugin + p2;
    let after = p3 + axes + p4;
    assert(prompt =~= before + bullets + after);
    lemma_occurs_extended(bullets, "require"@, before, after);
    lemma_occurs_extended(bullets, "review"@, before, after);
    lemma_occurs_extended(bullets, "delegate"@, before, after);
    lemma_occurs_extended(bullets, "delete"@, before, after);
    lemma_occurs_extended(bullets, "schedule"@, before, after);
    lemma_occurs_extended(bullets, "call"@, before, after);
    lemma_occurs_extended(bullets, "meeting"@, before, after);
}

/// Builds the system prompt of the classification action, given the names
/// of the context axes.
pub fn build_classification_system_prompt(plugin_name: &str, context_axes: &[String]) -> (r: String)
    ensures
        r@ == system_prompt_spec(plugin_name@, views(context_axes@)),
{
    let mut r = String::from_str("You are a cognitive axis classifier for a plugin called '");
    r.append(plugin_name);
    r.append("'.\nYour task is to classify items based on their content.\n\nCOGNITIVE AXES (choose one):\n");
    r.append("- require (needs immediate attention)\n- review (needs to be reviewed)\n- delegate (should be forwarded to someone else)\n- schedule (needs to be scheduled)\n- call (needs a phone call)\n- meeting (needs a meeting)\n- delete (can be deleted)");
    r.append("\n\nCONTEXT AXES (choose one or 'General' if none applies):\n");
    let axes = join_strings(context_axes, "\n");
    r.append(axes.as_str());
    r.append("\n\nRespond with ONLY the cognitive axis and context axis in this format:\ncognitive_axis: <axis>\ncontext_axis: <context>\n\nFor example:\ncognitive_axis: review\ncontext_axis: Work");
    r
}

/// A field of an item row: the column name and the value's JSON text.
#[derive(Debug, Clone)]
pub struct ItemField {
    pub name: String,
    pub value: String,
}

/// The value of the first field called `key`.
pub open spec fn field_value(item: Seq<ItemField>, key: Seq<char>) -> Option<Seq<char>>
    decreases item.len(),
{
    if item.len() == 0 {
        None
    } else if item[0].name@ == key {
        Some(item[0].value@)
    } else {
        field_value(item.drop_first(), key)
    }
}

/// `name: value` for each listed column that the item has.
pub open spec fn described_fields(item: Seq<ItemField>, names: Seq<Seq<char>>) -> Seq<Seq<char>>
    decreases names.len(),
{
    if names.len() == 0 {
        seq![]
    } else {
        described_fields(item, names.drop_last()) + match field_value(item, names.last()) {
            Some(v) => seq![names.last() + ": "@ + v],
            None => Seq::<Seq<char>>::empty(),
        }
    }
}

/// At most the first five secondary columns are described.
pub open spec fn at_most_five(names: Seq<Seq<char>>) -> Seq<Seq<char>> {
    if names.len() <= 5 {
        names
    } else {
        names.take(5)
    }
}

/// The user prompt that describes one item to the model.
pub open spec fn user_prompt_spec(item: Seq<ItemField>, main: Option<Seq<char>>, secondary: Seq<Seq<char>>) -> Seq<char> {
    let lines = described_fields(item, match main {
        Some(m) => seq![m],
        None => Seq::<Seq<char>>::empty(),
    }) + described_fields(item, at_most_five(secondary));
    if lines.len() == 0 {
        "No content available for classification"@
    } else {
        join_with(lines, "\n"@)
    }
}

/// The value read for a column is that of the item's first field with the
/// column's name; there is none when no field has that name.
pub proof fn lemma_field_value_is_first_match(item: Seq<ItemField>, key: Seq<char>)
    ensures
        field_value(item, key) is None <==> forall|i: int| 0 <= i < item.len() ==> (#[trigger] item[i]).name@ != key,
        field_value(item, key) is Some ==> exists|i: int| {
            &&& 0 <= i < item.len()
            &&& (#[trigger] item[i]).name@ == key
            &&& field_value(item, key) == Some(item[i].value@)
            &&& forall|j: int| 0 <= j < i ==> (#[trigger] item[j]).name@ != key
        },
    decreases item.len(),
{
    if item.len() > 0 {
        let rest = item.drop_first();
        lemma_field_value_is_first_match(rest, key);
        assert forall|i: int| 0 <= i < rest.len() implies #[trigger] rest[i] == item[i + 1] by {}
        if item[0].name@ != key {
            if forall|i: int| 0 <= i < rest.len() ==> (#[trigger] rest[i]).name@ != key {
                assert forall|i: int| 0 <= i < item.len() implies (#[trigger] item[i]).name@ != key by {
                    if i > 0 {
                        assert(item[i] == rest[i - 1]);
                    }
                }
            } else {
                let k = choose|i: int| 0 <= i < rest.len() && (#[trigger] rest[i]).name@ == key;
                assert(item[k + 1].name@ == key);
            }
            if field_value(item, key) is Some {
                let j = choose|j: int| {
                    &&& 0 <= j < rest.len()
                    &&& (#[trigger] rest[j]).name@ == key
                    &&& field_value(rest, key) == Some(rest[j].value@)
                    &&& forall|m: int| 0 <= m < j ==> (#[trigger] rest[m]).name@ != key
                };
                assert(item[j + 1] == rest[j]);
                assert forall|m: int| 0 <= m < j + 1 implies (#[trigger] item[m]).name@ != key by {
                    if m > 0 {
                        assert(item[m] == rest[m - 1]);
                    }
                }
            }
        } else {
            assert(item[0].name@ == key);
        }
    }
}

/// `f` maps each described line to the column it describes: the item has
/// that column, and the line is `name: value`; lines follow the order of
/// the columns, and every listed column the item has is described.
pub open spec fn describes_columns(f: spec_fn(int) -> int, lines: Seq<Seq<char>>, item: Seq<ItemField>, names: Seq<Seq<char>>) -> bool {
    &&& forall|p: int| 0 <= p < lines.len() ==> {
        &&& 0 <= #[trigger] f(p) < names.len()
        &&& field_value(item, names[f(p)]) is Some
        &&& lines[p] == names[f(p)] + ": "@ + field_value(item, names[f(p)])->0
    }
    &&& forall|p: int, q: int| 0 <= p < q < lines.len() ==> #[trigger] f(p) < #[trigger] f(q)
    &&& forall|i: int| 0 <= i < names.len() && field_value(item, #[trigger] names[i]) is Some
        ==> exists|p: int| 0 <= p < lines.len() && #[trigger] f(p) == i
}

/// The lines describing an item are `name: value` for exactly the listed
/// columns that the item has, once each, in the order listed.
pub proof fn lemma_described_fields_in_order(item: Seq<ItemField>, names: Seq<Seq<char>>)
    ensures
        exists|f: spec_fn(int) -> int| describes_columns(f, described_fields(item, names), item, names),
    decreases names.len(),
{
    let lines = described_fields(item, names);
    if names.len() == 0 {
        let f = |p: int| p;
        assert(describes_columns(f, lines, item, names));
    } else {
        let init = names.drop_last();
        let n = init.len() as int;
        lemma_described_fields_in_order(item, init);
        let l0 = described_fields(item, init);
        let f0 = choose|f: spec_fn(int) -> int| describes_columns(f, l0, item, init);
        let f = |p: int| if p < l0.len() { f0(p) } else { n };
        assert forall|p: int| 0 <= p < lines.len() implies {
            &&& 0 <= #[trigger] f(p) < names.len()
            &&& field_value(item, names[f(p)]) is Some
            &&& lines[p] == names[f(p)] + ": "@ + field_value(item, names[f(p)])->0
        } by {
            if p < l0.len() {
                assert(lines[p] == l0[p]);
                assert(init[f0(p)] == names[f0(p)]);
            } else {
                assert(field_value(item, names.last()) is Some);
                assert(lines[p] == names.last() + ": "@ + field_value(item, names.last())->0);
            }
        }
        assert forall|p: int, q: int| 0 <= p < q < lines.len() implies #[trigger] f(p) < #[trigger] f(q) by {
            if q < l0.len() {
                assert(f(p) == f0(p) && f(q) == f0(q));
            } else {
                assert(f(p) == f0(p));
            }
        }
        assert forall|i: int| 0 <= i < names.len() && field_value(item, #[trigger] names[i]) is Some
            implies exists|p: int| 0 <= p < lines.len() && #[trigger] f(p) == i by {
            if i < n {
                assert(init[i] == names[i]);
                let p = choose|p: int| 0 <= p < l0.len() && #[trigger] f0(p) == i;
                assert(f(p) == i);
            } else {
                let p = l0.len() as int;
                assert(lines.len() == l0.len() + 1);
                assert(f(p) == i);
            }
        }
        assert(describes_columns(f, lines, item, names));
    }
}

proof fn lemma_no_fields_described(item: Seq<ItemField>, names: Seq<Seq<char>>)
    requires
        forall|k: int| 0 <= k < names.len() ==> field_value(item, #[trigger] names[k]) is None,
    ensures
        described_fields(item, names) =~= Seq::<Seq<char>>::empty(),
    decreases names.len(),
{
    if names.len() > 0 {
        assert forall|k: int| 0 <= k < names.drop_last().len() implies field_value(item, #[trigger] names.drop_last()[k]) is None by {
            assert(names.drop_last()[k] == names[k]);
        }
        lemma_no_fields_described(item, names.drop_last());
        assert(field_value(item, names[names.len() - 1]) is None);
    }
}

/// What the user prompt says of an item: it opens with the main column's
/// `name: value` line when the item has that field; it reads "No content
/// available for classification" when the item has neither the main field
/// nor any of the first five secondary fields; and secondary columns after
/// the fifth are never described.
pub proof fn lemma_user_prompt_describes_item(item: Seq<ItemField>, main: Option<Seq<char>>, secondary: Seq<Seq<char>>)
    ensures
        (main is Some && field_value(item, main->0) is Some)
            ==> (main->0 + ": "@ + field_value(item, main->0)->0).is_prefix_of(user_prompt_spec(item, main, secondary)),
        (main is Some ==> field_value(item, main->0) is None)
            && (forall|k: int| 0 <= k < secondary.len() && k < 5 ==> field_value(item, #[trigger] secondary[k]) is None)
            ==> user_prompt_spec(item, main, secondary) == "No content available for classification"@,
        secondary.len() > 5 ==> user_prompt_spec(item, main, secondary) == user_prompt_spec(item, main, secondary.take(5)),
{
    let heads = match main {
        Some(m) => seq![m],
        None => Seq::<Seq<char>>::empty(),
    };
    let first = described_fields(item, heads);
    let rest = described_fields(item, at_most_five(secondary));
    let lines = first + rest;
    if let Some(m) = main {
        assert(heads.drop_last() =~= Seq::<Seq<char>>::empty());
        assert(described_fields(item, Seq::<Seq<char>>::empty()) == Seq::<Seq<char>>::empty());
        if let Some(v) = field_value(item, m) {
            let line = m + ": "@ + v;
            assert(first =~= seq![line]);
            assert(lines[0] == line);
            assert(lines.len() >= 1);
            assert(user_prompt_spec(item, main, secondary) == join_with(lines, "\n"@));
            let j = join_with(lines, "\n"@);
            if lines.len() == 1 {
                assert(j == line);
                assert(line.is_prefix_of(j));
            } else {
                crate::text::lemma_join_front(lines, "\n"@);
                let tail = join_with(lines.drop_first(), "\n"@);
                assert(j == line + "\n"@ + tail);
                assert(j.subrange(0, line.len() as int) =~= line);
                assert(line.is_prefix_of(j));
            }
        } else {
            assert(first =~= Seq::<Seq<char>>::empty());
        }
    } else {
        assert(first =~= Seq::<Seq<char>>::empty());
    }
    if (main is Some ==> field_value(item, main->0) is None)
        && (forall|k: int| 0 <= k < secondary.len() && k < 5 ==> field_value(item, #[trigger] secondary[k]) is None) {
        let five = at_most_five(secondary);
        assert forall|k: int| 0 <= k < five.len() implies field_value(item, #[trigger] five[k]) is None by {
            assert(five[k] == secondary[k]);
        }
        lemma_no_fields_described(item, five);
        assert(lines =~= Seq::<Seq<char>>::empty());
    }
    if secondary.len() > 5 {
        assert(at_most_five(secondary.take(5)) =~= at_most_five(secondary));
    }
}

fn find_field(item: &[ItemField], key: &str) -> (r: Option<usize>)
    ensures
        match r {
            Some(i) => i < item@.len() && field_value(item@, key@) == Some(item@[i as int].value@),
            None => field_value(item@, key@) is None,
        },
{
    let mut i: usize = 0;
    assert(item@.skip(0) =~= item@);
    while i < item.len()
        invariant
            i <= item@.len(),
            field_value(item@, key@) == field_value(item@.skip(i as int), key@),
        decreases item@.len() - i,
    {
        proof {
            assert(item@.skip(i as int).drop_first() =~= item@.skip(i + 1));
            assert(item@.skip(i as int)[0] == item@[i as int]);
        }
        if str_eq(item[i].name.as_str(), key) {
            return Some(i);
        }
        i = i + 1;
    }
    None
}

fn push_described_fields(lines: &mut Vec<String>, item: &[ItemField], names: &[String], limit: usize)
    requires
        limit <= names@.len(),
    ensures
        views(final(lines)@) == views(old(lines)@) + described_fields(item@, views(names@.take(limit as int))),
{
    let ghost start = views(lines@);
    let mut i: usize = 0;
    while i < limit
        invariant
            i <= limit <= names@.len(),
            views(lines@) == start + described_fields(item@, views(names@.take(i as int))),
        decreases limit - i,
    {
        let name = names[i].as_str();
        proof {
            assert(views(names@.take(i + 1)).drop_last() =~= views(names@.take(i as int)));
            assert(views(names@.take(i + 1)).last() == name@);
        }
        match find_field(item, name) {
            Some(k) => {
                let mut line = String::from_str(name);
                line.append(": ");
                line.append(item[k].value.as_str());
                let ghost prev = lines@;
                lines.push(line);
                assert(views(lines@) =~= views(prev).push(line@));
            },
            None => {},
        }
        i = i + 1;
    }
}

/// Describes an item to the model: `column: value` for the main column and
/// for up to five secondary columns that the item has, one per line.
pub fn build_user_prompt_for_item(item: &[ItemField], main_column: Option<&str>, secondary_columns: &[String]) -> (r: String)
    ensures
        r@ == user_prompt_spec(item@, opt_view(main_column), views(secondary_columns@)),
{
    let mut lines: Vec<String> = Vec::new();
    match main_column {
        Some(m) => {
            let mut names: Vec<String> = Vec::new();
            names.push(String::from_str(m));
            push_described_fields(&mut lines, item, names.as_slice(), 1);
            assert(views(names@.take(1)) =~= seq![m@]);
        },
        None => {},
    }
    let ghost first = views(lines@);
    let limit = if secondary_columns.len() <= 5 { secondary_columns.len() } else { 5 };
    push_described_fields(&mut lines, item, secondary_columns, limit);
    proof {
        assert(views(secondary_columns@.take(limit as int)) =~= at_most_five(views(secondary_columns@)));
        assert(first =~= described_fields(item@, match opt_view(main_column) {
            Some(m) => seq![m],
            None => Seq::<Seq<char>>::empty(),
        }));
    }
    if lines.len() == 0 {
        String::from_str("No content available for classification")
    } else {
        join_strings(lines.as_slice(), "\n")
    }
}

/// What happened to one item of an AI action.
#[derive(Debug, Clone)]
pub enum ItemOutcome {
    /// The model answered; the axes read from its reply.
    Classified { id: String, cognitive_axis: String, context_axis: Option<String> },
    /// The completion failed with this message.
    Failed { id: String, error: String },
}

/// Reads the outcome for an item out of the model's reply, or records the
/// failure of the completion.
pub fn classify_item(id: &str, reply: Result<String, String>) -> (r: ItemOutcome)
    ensures
        match reply {
            Ok(text) => r matches ItemOutcome::Classified { id: i, cognitive_axis: c, context_axis: x }
                && i@ == id@ && c@ == cognitive_axis_of(crate::text::lowercase(text@))
                && x == Some(x->0) && x->0@ == context_axis_of(crate::text::lowercase(text@)),
            Err(e) => r matches ItemOutcome::Failed { id: i, error: m } && i@ == id@ && m@ == e@,
        },
{
    match reply {
        Ok(text) => {
            let parsed = parse_classification_response(text.as_str(), "cognitive_axis", Some("context_axis"));
            let (cognitive_axis, context_axis) = match parsed {
                Ok(p) => p,
                Err(_) => (String::from_str("General"), None),
            };
            ItemOutcome::Classified { id: String::from_str(id), cognitive_axis, context_axis }
        },
        Err(e) => ItemOutcome::Failed { id: String::from_str(id), error: e },
    }
}

/// The endpoint and item table an AI action works with, checked in that
/// order: without an endpoint nothing else is looked at.
pub fn prepare_ai_action(endpoints: Vec<LlmEndpoint>, plugin_name: &str) -> (r: Result<(LlmEndpoint, String), String>)
    ensures
        match r {
            Ok((e, t)) => chosen_endpoint(endpoints@) matches Some(i) && e == endpoints@[i]
                && plugin_name_error(plugin_name@) is None && t@ == table_name_for(plugin_name@),
            Err(m) => if chosen_endpoint(endpoints@) is None {
                m@ == "No LLM endpoint configured. Please add an LLM endpoint in settings."@
            } else {
                plugin_name_error(plugin_name@) == Some(m@)
            },
        },
{
    let endpoint = choose_llm_endpoint(endpoints)?;
    let table = safe_table_name(plugin_name)?;
    Ok((endpoint, table))
}

/// The statement that reads one item of a plugin for the AI action.
pub fn item_fetch_statement(table: &str, id: &str) -> (q: SqlQuery)
    ensures
        q@ == fetch_statement(table@, id@),
        free_of(table@, '?') ==> binds_each_placeholder(q@),
{
    let mut sql = String::from_str("SELECT * FROM ");
    sql.append(table);
    sql.append(" WHERE id = ?1");
    let mut args: Vec<SqlArg> = Vec::new();
    args.push(SqlArg::Text(String::from_str(id)));
    let q = SqlQuery { sql, args };
    assert(q@.args =~= seq![SqlArgView::Text(id@)]);
    proof {
        if free_of(table@, '?') {
            lemma_fetch_binds_placeholders(table@, id@);
        }
    }
    q
}

/// An item queued for classification: its id and the prompt describing it.
#[derive(Debug, Clone)]
pub struct QueuedItem {
    pub id: String,
    pub prompt: String,
}

/// The items that were found, each with the prompt that describes it, in
/// the order of the requested ids; ids whose row was not found are skipped.
pub open spec fn queued_items(
    ids: Seq<String>,
    rows: Seq<Option<Vec<ItemField>>>,
    main: Option<Seq<char>>,
    secondary: Seq<Seq<char>>,
) -> Seq<(Seq<char>, Seq<char>)>
    decreases ids.len(),
{
    if ids.len() == 0 {
        seq![]
    } else {
        queued_items(ids.drop_last(), rows, main, secondary) + match rows[ids.len() - 1] {
            Some(item) => seq![(ids.last()@, user_prompt_spec(item@, main, secondary))],
            None => Seq::<(Seq<char>, Seq<char>)>::empty(),
        }
    }
}

/// `f` maps each queued entry to the requested id it came from: that id's
/// row was found, the entry carries the id and the prompt of that row, and
/// the entries keep the order of the ids.
pub open spec fn queue_follows_ids(
    f: spec_fn(int) -> int,
    queued: Seq<(Seq<char>, Seq<char>)>,
    ids: Seq<String>,
    rows: Seq<Option<Vec<ItemField>>>,
    main: Option<Seq<char>>,
    secondary: Seq<Seq<char>>,
) -> bool {
    &&& forall|p: int| 0 <= p < queued.len() ==> {
        &&& 0 <= #[trigger] f(p) < ids.len()
        &&& rows[f(p)] is Some
        &&& queued[p] == (ids[f(p)]@, user_prompt_spec(rows[f(p)]->0@, main, secondary))
    }
    &&& forall|p: int, q: int| 0 <= p < q < queued.len() ==> #[trigger] f(p) < #[trigger] f(q)
    &&& forall|i: int| 0 <= i < ids.len() && rows[i] is Some ==> exists|p: int| 0 <= p < queued.len() && #[trigger] f(p) == i
}

/// Every requested item whose row was found is queued exactly once, with
/// the prompt built from its own row, in the order the ids were given; no
/// other entry is queued.
pub proof fn lemma_queue_holds_each_found_item(
    ids: Seq<String>,
    rows: Seq<Option<Vec<ItemField>>>,
    main: Option<Seq<char>>,
    secondary: Seq<Seq<char>>,
)
    requires
        ids.len() <= rows.len(),
    ensures
        exists|f: spec_fn(int) -> int| queue_follows_ids(f, queued_items(ids, rows, main, secondary), ids, rows, main, secondary),
    decreases ids.len(),
{
    let q = queued_items(ids, rows, main, secondary);
    if ids.len() == 0 {
        let f = |p: int| p;
        assert(queue_follows_ids(f, q, ids, rows, main, secondary));
    } else {
        let init = ids.drop_last();
        let n = init.len() as int;
        lemma_queue_holds_each_found_item(init, rows, main, secondary);
        let q0 = queued_items(init, rows, main, secondary);
        let f0 = choose|f: spec_fn(int) -> int| queue_follows_ids(f, q0, init, rows, main, secondary);
        let f = |p: int| if p < q0.len() { f0(p) } else { n };
        assert forall|p: int| 0 <= p < q.len() implies {
            &&& 0 <= #[trigger] f(p) < ids.len()
            &&& rows[f(p)] is Some
            &&& q[p] == (ids[f(p)]@, user_prompt_spec(rows[f(p)]->0@, main, secondary))
        } by {
            if p < q0.len() {
                assert(f(p) == f0(p));
                assert(q[p] == q0[p]);
                assert(ids[f0(p)] == init[f0(p)]);
            } else {
                assert(rows[n] is Some);
                assert(q[p] == (ids.last()@, user_prompt_spec(rows[n]->0@, main, secondary)));
            }
        }
        assert forall|p: int, r: int| 0 <= p < r < q.len() implies #[trigger] f(p) < #[trigger] f(r) by {
            if r < q0.len() {
                assert(f(p) == f0(p) && f(r) == f0(r));
            } else {
                assert(f(p) == f0(p));
            }
        }
        assert forall|i: int| 0 <= i < ids.len() && rows[i] is Some implies exists|p: int| 0 <= p < q.len() && #[trigger] f(p) == i by {
            if i < n {
                let p = choose|p: int| 0 <= p < q0.len() && #[trigger] f0(p) == i;
                assert(f(p) == i);
            } else {
                let p = q0.len() as int;
                assert(q.len() == q0.len() + 1);
                assert(f(p) == i);
            }
        }
        assert(queue_follows_ids(f, q, ids, rows, main, secondary));
    }
}

/// Prepares the prompts of an AI action: `rows[i]` is the row read for
/// `item_ids[i]`, if there was one.
pub fn queue_ai_items(item_ids: &[String], rows: &[Option<Vec<ItemField>>], columns: &[PluginColumn]) -> (r: Vec<QueuedItem>)
    requires
        rows@.len() == item_ids@.len(),
    ensures
        r@.map_values(|q: QueuedItem| (q.id@, q.prompt@))
            == queued_items(item_ids@, rows@, first_main_column(columns@), secondary_column_names(columns@)),
{
    let (main, secondary) = prompt_columns(columns);
    let main_ref: Option<&str> = match &main {
        Some(m) => Some(m.as_str()),
        None => None,
    };
    let ghost mv = opt_string_view(main);
    assert(opt_view(main_ref) == mv);
    let mut queued: Vec<QueuedItem> = Vec::new();
    let mut i: usize = 0;
    while i < item_ids.len()
        invariant
            i <= item_ids@.len() == rows@.len(),
            opt_view(main_ref) == first_main_column(columns@),
            views(secondary@) == secondary_column_names(columns@),
            queued@.map_values(|q: QueuedItem| (q.id@, q.prompt@))
                == queued_items(item_ids@.take(i as int), rows@, first_main_column(columns@), secondary_column_names(columns@)),
        decreases item_ids@.len() - i,
    {
        proof {
            assert(item_ids@.take(i + 1).drop_last() =~= item_ids@.take(i as int));
            assert(item_ids@.take(i + 1).last() == item_ids@[i as int]);
        }
        match &rows[i] {
            Some(item) => {
                let prompt = build_user_prompt_for_item(item.as_slice(), main_ref, secondary.as_slice());
                let ghost prev = queued@;
                let q = QueuedItem { id: item_ids[i].clone(), prompt };
                queued.push(q);
                assert(queued@.map_values(|q: QueuedItem| (q.id@, q.prompt@))
                    =~= prev.map_values(|q: QueuedItem| (q.id@, q.prompt@)).push((item_ids@[i as int]@, prompt@)));
            },
            None => {},
        }
        i = i + 1;
    }
    assert(item_ids@.take(item_ids@.len() as int) =~= item_ids@);
    queued
}

/// The statements that store a classification: the cognitive axis always,
/// the context axis when one was read.
pub fn classification_statements(table: &str, id: &str, cognitive_axis: &str, context_axis: Option<&str>) -> (r: (SqlQuery, Option<SqlQuery>))
    ensures
        r.0@ == (SqlQueryView {
            sql: "UPDATE "@ + table@ + " SET cognitive_axis = ?1 WHERE id = ?2"@,
            args: seq![SqlArgView::Text(cognitive_axis@), SqlArgView::Text(id@)],
        }),
        match context_axis {
            Some(c) => r.1 matches Some(q) && q@ == (SqlQueryView {
                sql: "UPDATE "@ + table@ + " SET context_axis = ?1 WHERE id = ?2"@,
                args: seq![SqlArgView::Text(c@), SqlArgView::Text(id@)],
            }),
            None => r.1 is None,
        },
        free_of(table@, '?') ==> binds_each_placeholder(r.0@) && (r.1 matches Some(q) ==> binds_each_placeholder(q@)),
{
    let mut sql = String::from_str("UPDATE ");
    sql.append(table);
    sql.append(" SET cognitive_axis = ?1 WHERE id = ?2");
    let mut args: Vec<SqlArg> = Vec::new();
    args.push(SqlArg::Text(String::from_str(cognitive_axis)));
    args.push(SqlArg::Text(String::from_str(id)));
    let first = SqlQuery { sql, args };
    assert(first@.args =~= seq![SqlArgView::Text(cognitive_axis@), SqlArgView::Text(id@)]);
    let second = match context_axis {
        Some(c) => {
            let mut sql = String::from_str("UPDATE ");
            sql.append(table);
            sql.append(" SET context_axis = ?1 WHERE id = ?2");
            let mut args: Vec<SqlArg> = Vec::new();
            args.push(SqlArg::Text(String::from_str(c)));
            args.push(SqlArg::Text(String::from_str(id)));
            let q = SqlQuery { sql, args };
            assert(q@.args =~= seq![SqlArgView::Text(c@), SqlArgView::Text(id@)]);
            Some(q)
        },
        None => None,
    };
    proof {
        if free_of(table@, '?') {
            lemma_classification_binds_placeholders(table@);
        }
    }
    (first, second)
}

/// The totals an AI action reports.
#[derive(Debug, Clone)]
pub struct AiActionSummary {
    pub processed: usize,
    pub updated: usize,
    pub status: String,
}

/// The number of classified outcomes.
pub open spec fn classified_count(outcomes: Seq<ItemOutcome>) -> nat
    decreases outcomes.len(),
{
    if outcomes.len() == 0 {
        0
    } else {
        classified_count(outcomes.drop_last()) + if outcomes.last() is Classified { 1nat } else { 0nat }
    }
}

/// At most every outcome is classified: all of them exactly when every item
/// was classified, and none exactly when every completion failed.
pub proof fn lemma_classified_count_bounds(outcomes: Seq<ItemOutcome>)
    ensures
        classified_count(outcomes) <= outcomes.len(),
        classified_count(outcomes) == outcomes.len() <==> forall|i: int| 0 <= i < outcomes.len() ==> (#[trigger] outcomes[i]) is Classified,
        classified_count(outcomes) == 0 <==> forall|i: int| 0 <= i < outcomes.len() ==> (#[trigger] outcomes[i]) is Failed,
    decreases outcomes.len(),
{
    if outcomes.len() > 0 {
        let init = outcomes.drop_last();
        lemma_classified_count_bounds(init);
        assert forall|i: int| 0 <= i < init.len() implies #[trigger] init[i] == outcomes[i] by {}
        if forall|i: int| 0 <= i < outcomes.len() ==> (#[trigger] outcomes[i]) is Classified {
            assert forall|i: int| 0 <= i < init.len() implies (#[trigger] init[i]) is Classified by {
                assert(outcomes[i] is Classified);
            }
        }
        if forall|i: int| 0 <= i < outcomes.len() ==> (#[trigger] outcomes[i]) is Failed {
            assert forall|i: int| 0 <= i < init.len() implies (#[trigger] init[i]) is Failed by {
                assert(outcomes[i] is Failed);
            }
        }
        if classified_count(outcomes) == outcomes.len() {
            assert forall|i: int| 0 <= i < outcomes.len() implies (#[trigger] outcomes[i]) is Classified by {
                if i < init.len() {
                    assert(init[i] is Classified);
                }
            }
        }
        if classified_count(outcomes) == 0 {
            assert forall|i: int| 0 <= i < outcomes.len() implies (#[trigger] outcomes[i]) is Failed by {
                if i < init.len() {
                    assert(init[i] is Failed);
                }
            }
        }
        assert(outcomes[outcomes.len() - 1] == outcomes.last());
    }
}

/// Counts the processed and classified items; the action has `completed`
/// when at least one item was classified, and has `failed` otherwise.
pub fn summarize_ai_action(outcomes: &[ItemOutcome]) -> (r: AiActionSummary)
    ensures
        r.processed == outcomes@.len(),
        r.updated == classified_count(outcomes@),
        r.status@ == if classified_count(outcomes@) > 0 { "completed"@ } else { "failed"@ },
{
    let mut updated: usize = 0;
    let mut i: usize = 0;
    while i < outcomes.len()
        invariant
            i <= outcomes@.len(),
            updated == classified_count(outcomes@.take(i as int)),
            updated <= i,
        decreases outcomes@.len() - i,
    {
        proof {
            assert(outcomes@.take(i + 1).drop_last() =~= outcomes@.take(i as int));
        }
        match &outcomes[i] {
            ItemOutcome::Classified { .. } => {
                updated = updated + 1;
            },
            ItemOutcome::Failed { .. } => {},
        }
        i = i + 1;
    }
    assert(outcomes@.take(outcomes@.len() as int) =~= outcomes@);
    let status = if updated > 0 {
        String::from_str("completed")
    } else {
        String::from_str("failed")
    };
    AiActionSummary { processed: outcomes.len(), updated, status }
}

/// Which endpoint an AI action uses: the first default one, or else the
/// first one.
pub open spec fn chosen_endpoint(endpoints: Seq<LlmEndpoint>) -> Option<int> {
    if exists|i: int| 0 <= i < endpoints.len() && (#[trigger] endpoints[i]).is_default {
        Some(choose|i: int| 0 <= i < endpoints.len() && (#[trigger] endpoints[i]).is_default
            && forall|k: int| 0 <= k < i ==> !(#[trigger] endpoints[k]).is_default)
    } else if endpoints.len() > 0 {
        Some(0)
    } else {
        None
    }
}

/// The endpoint an AI action uses is a default one when any endpoint is
/// marked default (the first of them), and otherwise the first endpoint;
/// there is one exactly when some endpoint is configured.
pub proof fn lemma_chosen_endpoint_prefers_default(endpoints: Seq<LlmEndpoint>)
    ensures
        chosen_endpoint(endpoints) is Some <==> endpoints.len() > 0,
        chosen_endpoint(endpoints) matches Some(i) ==> 0 <= i < endpoints.len(),
        (exists|k: int| 0 <= k < endpoints.len() && (#[trigger] endpoints[k]).is_default) ==> {
            &&& chosen_endpoint(endpoints) is Some
            &&& endpoints[chosen_endpoint(endpoints)->0].is_default
            &&& forall|k: int| 0 <= k < chosen_endpoint(endpoints)->0 ==> !(#[trigger] endpoints[k]).is_default
        },
        !(exists|k: int| 0 <= k < endpoints.len() && (#[trigger] endpoints[k]).is_default) && endpoints.len() > 0
            ==> chosen_endpoint(endpoints) == Some(0int),
{
    if exists|k: int| 0 <= k < endpoints.len() && (#[trigger] endpoints[k]).is_default {
        let k = choose|k: int| 0 <= k < endpoints.len() && (#[trigger] endpoints[k]).is_default;
        lemma_first_default_exists(endpoints, k);
    }
}

proof fn lemma_first_default_exists(endpoints: Seq<LlmEndpoint>, k: int)
    requires
        0 <= k < endpoints.len(),
        endpoints[k].is_default,
    ensures
        exists|i: int| 0 <= i < endpoints.len() && (#[trigger] endpoints[i]).is_default
            && forall|m: int| 0 <= m < i ==> !(#[trigger] endpoints[m]).is_default,
    decreases k,
{
    if exists|m: int| 0 <= m < k && (#[trigger] endpoints[m]).is_default {
        let m = choose|m: int| 0 <= m < k && (#[trigger] endpoints[m]).is_default;
        lemma_first_default_exists(endpoints, m);
    } else {
        assert(endpoints[k].is_default && forall|m: int| 0 <= m < k ==> !(#[trigger] endpoints[m]).is_default);
    }
}

/// Picks the endpoint for an AI action out of the configured endpoints.
pub fn choose_llm_endpoint(endpoints: Vec<LlmEndpoint>) -> (r: Result<LlmEndpoint, String>)
    ensures
        match r {
            Ok(e) => chosen_endpoint(endpoints@) matches Some(i) && e == endpoints@[i],
            Err(m) => chosen_endpoint(endpoints@) is None
                && m@ == "No LLM endpoint configured. Please add an LLM endpoint in settings."@,
        },
{
    let mut list = endpoints;
    let ghost all = list@;
    let mut i: usize = 0;
    while i < list.len()
        invariant
            list@ == all,
            all == endpoints@,
            i <= all.len(),
            forall|k: int| 0 <= k < i ==> !(#[trigger] all[k]).is_default,
        decreases all.len() - i,
    {
        if list[i].is_default {
            proof {
                let j = choose|j: int| 0 <= j < all.len() && (#[trigger] all[j]).is_default
                    && forall|k: int| 0 <= k < j ==> !(#[trigger] all[k]).is_default;
                assert(0 <= i < all.len() && all[i as int].is_default && forall|k: int| 0 <= k < i ==> !(#[trigger] all[k]).is_default);
                if j < i {
                    assert(!all[j].is_default);
                } else if j > i {
                    assert(!all[i as int].is_default);
                }
                assert(chosen_endpoint(all) == Some(i as int));
            }
            let e = list.swap_remove(i);
            return Ok(e);
        }
        i = i + 1;
    }
    if list.len() > 0 {
        let e = list.swap_remove(0);
        Ok(e)
    } else {
        Err(String::from_str("No LLM endpoint configured. Please add an LLM endpoint in settings."))
    }
}


// ---------------------------------------------------------------------------
// Plugin information
// ---------------------------------------------------------------------------

/// A column as listed in a plugin's information.
#[derive(Debug, Clone)]
pub struct ColumnSummary {
    pub name: String,
    pub display: String,
    pub col_type: String,
    pub dtype: String,
}

/// The `(name, display, type, dtype)` of a column summary.
pub open spec fn summary_view(c: ColumnSummary) -> Seq<Seq<char>> {
    seq![c.name@, c.display@, c.col_type@, c.dtype@]
}

/// The column summaries in `name:display:type:dtype` entries, keeping the
/// entries that have exactly four fields.
pub open spec fn column_summaries(entries: Seq<Seq<char>>) -> Seq<Seq<Seq<char>>>
    decreases entries.len(),
{
    if entries.len() == 0 {
        seq![]
    } else {
        let fields = split_on(entries.last(), ':');
        column_summaries(entries.drop_last()) + if fields.len() == 4 {
            seq![fields]
        } else {
            Seq::<Seq<Seq<char>>>::empty()
        }
    }
}

/// The `name:display:type:dtype` entry of a column's fields.
pub open spec fn column_entry(fields: Seq<Seq<char>>) -> Seq<char> {
    join_with(fields, seq![':'])
}

/// A column's four fields, none of which holds `:` or `;`.
pub open spec fn is_plain_column(fields: Seq<Seq<char>>) -> bool {
    fields.len() == 4 && forall|j: int| 0 <= j < 4 ==> crate::text::free_of(#[trigger] fields[j], ':')
        && crate::text::free_of(fields[j], ';')
}

proof fn lemma_summaries_of_entries(cols: Seq<Seq<Seq<char>>>)
    requires
        forall|i: int| 0 <= i < cols.len() ==> is_plain_column(#[trigger] cols[i]),
    ensures
        column_summaries(cols.map_values(|c: Seq<Seq<char>>| column_entry(c))) == cols,
    decreases cols.len(),
{
    if cols.len() > 0 {
        let init = cols.drop_last();
        assert forall|i: int| 0 <= i < init.len() implies is_plain_column(#[trigger] init[i]) by {
            assert(init[i] == cols[i]);
        }
        lemma_summaries_of_entries(init);
        let entries = cols.map_values(|c: Seq<Seq<char>>| column_entry(c));
        assert(entries.drop_last() =~= init.map_values(|c: Seq<Seq<char>>| column_entry(c)));
        let last = cols.last();
        assert(is_plain_column(last));
        crate::text::lemma_split_join(last, ':');
        assert(column_summaries(entries) =~= cols);
    }
}

/// The column list of a plugin's information reads back the columns it
/// was made from, when no field holds `:` or `;`.
pub proof fn lemma_column_summary_round_trip(cols: Seq<Seq<Seq<char>>>)
    requires
        forall|i: int| 0 <= i < cols.len() ==> is_plain_column(#[trigger] cols[i]),
    ensures
        column_summaries(split_on(join_with(cols.map_values(|c: Seq<Seq<char>>| column_entry(c)), seq![';']), ';')) == cols,
{
    let entries = cols.map_values(|c: Seq<Seq<char>>| column_entry(c));
    if cols.len() == 0 {
        assert(join_with(entries, seq![';']) == Seq::<char>::empty());
        crate::text::lemma_first_pos_is(Seq::<char>::empty(), ';', 0);
        assert(split_on(Seq::<char>::empty(), ';') == seq![Seq::<char>::empty()]);
        crate::text::lemma_first_pos_is(Seq::<char>::empty(), ':', 0);
        assert(split_on(Seq::<char>::empty(), ':') == seq![Seq::<char>::empty()]);
        let one = seq![Seq::<char>::empty()];
        assert(one.drop_last() =~= Seq::<Seq<char>>::empty());
        assert(one.last() == Seq::<char>::empty());
        assert(column_summaries(Seq::<Seq<char>>::empty()) == Seq::<Seq<Seq<char>>>::empty());
        assert(split_on(one.last(), ':').len() == 1);
        assert(column_summaries(one) =~= Seq::<Seq<Seq<char>>>::empty());
    } else {
        assert forall|i: int| 0 <= i < entries.len() implies crate::text::free_of(#[trigger] entries[i], ';') by {
            let c = cols[i];
            assert(is_plain_column(c));
            assert forall|j: int| 0 <= j < c.len() implies crate::text::free_of(#[trigger] c[j], ';') by {}
            crate::text::lemma_join_free_of(c, seq![':'], ';');
        }
        crate::text::lemma_split_join(entries, ';');
        lemma_summaries_of_entries(cols);
    }
}

/// Reads the columns out of the `;`-separated list of
/// `name:display:type:dtype` entries that the plugin information query
/// concatenates; entries without exactly four fields are skipped, and a
/// plugin without columns has none.
pub fn parse_column_summary(columns: Option<&str>) -> (r: Vec<ColumnSummary>)
    ensures
        r@.map_values(|c: ColumnSummary| summary_view(c)) == match columns {
            Some(s) => column_summaries(split_on(s@, ';')),
            None => Seq::<Seq<Seq<char>>>::empty(),
        },
{
    let mut result: Vec<ColumnSummary> = Vec::new();
    let s = match columns {
        Some(s) => s,
        None => {
            assert(result@.map_values(|c: ColumnSummary| summary_view(c)) =~= Seq::<Seq<Seq<char>>>::empty());
            return result;
        },
    };
    let entries = split_str(s, ';');
    let mut i: usize = 0;
    while i < entries.len()
        invariant
            i <= entries@.len(),
            views(entries@) == split_on(s@, ';'),
            result@.map_values(|c: ColumnSummary| summary_view(c)) == column_summaries(views(entries@).take(i as int)),
        decreases entries@.len() - i,
    {
        proof {
            assert(views(entries@).take(i + 1).drop_last() =~= views(entries@).take(i as int));
            assert(views(entries@).take(i + 1).last() == entries@[i as int]@);
        }
        let fields = split_str(entries[i].as_str(), ':');
        if fields.len() == 4 {
            let c = ColumnSummary {
                name: fields[0].clone(),
                display: fields[1].clone(),
                col_type: fields[2].clone(),
                dtype: fields[3].clone(),
            };
            let ghost prev = result@;
            result.push(c);
            proof {
                assert(summary_view(c) =~= views(fields@));
                assert(result@.map_values(|c: ColumnSummary| summary_view(c)) =~= prev.map_values(|c: ColumnSummary| summary_view(c)).push(summary_view(c)));
            }
        }
        i = i + 1;
    }
    assert(views(entries@).take(entries@.len() as int) =~= views(entries@));
    result
}

// ---------------------------------------------------------------------------
// Settings updates
// ---------------------------------------------------------------------------

/// `UPDATE table SET a = ?, b = ? WHERE id = ?`.
pub open spec fn set_by_id_sql(table: Seq<char>, columns: Seq<Seq<char>>) -> Seq<char> {
    "UPDATE "@ + table + " SET "@ + join_with(assignments(columns), ", "@) + " WHERE id = ?"@
}

/// One optional field of an update: the column, and its value if given.
pub open spec fn present_columns(fields: Seq<(Seq<char>, Option<SqlArgView>)>) -> Seq<Seq<char>>
    decreases fields.len(),
{
    if fields.len() == 0 {
        seq![]
    } else {
        present_columns(fields.drop_last()) + match fields.last().1 {
            Some(_) => seq![fields.last().0],
            None => Seq::<Seq<char>>::empty(),
        }
    }
}

pub open spec fn present_values(fields: Seq<(Seq<char>, Option<SqlArgView>)>) -> Seq<SqlArgView>
    decreases fields.len(),
{
    if fields.len() == 0 {
        seq![]
    } else {
        present_values(fields.drop_last()) + match fields.last().1 {
            Some(v) => seq![v],
            None => Seq::<SqlArgView>::empty(),
        }
    }
}

/// `f` maps each column set by an update to the given field it came from:
/// that field has a value, the column is the field's and is bound to the
/// field's value, in the order of the fields; every field with a value is
/// set.
pub open spec fn sets_given_fields(
    f: spec_fn(int) -> int,
    columns: Seq<Seq<char>>,
    values: Seq<SqlArgView>,
    fields: Seq<(Seq<char>, Option<SqlArgView>)>,
) -> bool {
    &&& columns.len() == values.len()
    &&& forall|p: int| 0 <= p < columns.len() ==> {
        &&& 0 <= #[trigger] f(p) < fields.len()
        &&& fields[f(p)].1 is Some
        &&& columns[p] == fields[f(p)].0
        &&& values[p] == fields[f(p)].1->0
    }
    &&& forall|p: int, q: int| 0 <= p < q < columns.len() ==> #[trigger] f(p) < #[trigger] f(q)
    &&& forall|i: int| 0 <= i < fields.len() && (#[trigger] fields[i]).1 is Some
        ==> exists|p: int| 0 <= p < columns.len() && #[trigger] f(p) == i
}

/// An update sets exactly the fields that were given a value, each column
/// bound to its own value, in the order of the fields.
pub proof fn lemma_update_sets_given_fields(fields: Seq<(Seq<char>, Option<SqlArgView>)>)
    ensures
        exists|f: spec_fn(int) -> int| sets_given_fields(f, present_columns(fields), present_values(fields), fields),
    decreases fields.len(),
{
    let cols = present_columns(fields);
    let vals = present_values(fields);
    if fields.len() == 0 {
        let f = |p: int| p;
        assert(sets_given_fields(f, cols, vals, fields));
    } else {
        let init = fields.drop_last();
        let n = init.len() as int;
        lemma_update_sets_given_fields(init);
        let c0 = present_columns(init);
        let v0 = present_values(init);
        let f0 = choose|f: spec_fn(int) -> int| sets_given_fields(f, c0, v0, init);
        let f = |p: int| if p < c0.len() { f0(p) } else { n };
        assert(cols.len() == vals.len());
        assert forall|p: int| 0 <= p < cols.len() implies {
            &&& 0 <= #[trigger] f(p) < fields.len()
            &&& fields[f(p)].1 is Some
            &&& cols[p] == fields[f(p)].0
            &&& vals[p] == fields[f(p)].1->0
        } by {
            if p < c0.len() {
                assert(cols[p] == c0[p]);
                assert(vals[p] == v0[p]);
                assert(init[f0(p)] == fields[f0(p)]);
            } else {
                assert(fields.last().1 is Some);
                assert(cols[p] == fields.last().0);
                assert(vals[p] == fields.last().1->0);
            }
        }
        assert forall|p: int, q: int| 0 <= p < q < cols.len() implies #[trigger] f(p) < #[trigger] f(q) by {
            if q < c0.len() {
                assert(f(p) == f0(p) && f(q) == f0(q));
            } else {
                assert(f(p) == f0(p));
            }
        }
        assert forall|i: int| 0 <= i < fields.len() && (#[trigger] fields[i]).1 is Some
            implies exists|p: int| 0 <= p < cols.len() && #[trigger] f(p) == i by {
            if i < n {
                assert(init[i] == fields[i]);
                let p = choose|p: int| 0 <= p < c0.len() && #[trigger] f0(p) == i;
                assert(f(p) == i);
            } else {
                let p = c0.len() as int;
                assert(cols.len() == c0.len() + 1);
                assert(f(p) == i);
            }
        }
        assert(sets_given_fields(f, cols, vals, fields));
    }
}

/// The update of the given fields of the row `id` of `table`, or the error
/// when no field is given.
pub open spec fn settings_update_spec(table: Seq<char>, id: i64, fields: Seq<(Seq<char>, Option<SqlArgView>)>) -> Result<SqlQueryView, Seq<char>> {
    if present_columns(fields).len() == 0 {
        Err("No fields to update"@)
    } else {
        Ok(SqlQueryView {
            sql: set_by_id_sql(table, present_columns(fields)),
            args: present_values(fields).push(SqlArgView::Int(id as int)),
        })
    }
}

pub open spec fn text_field(column: Seq<char>, value: Option<String>) -> (Seq<char>, Option<SqlArgView>) {
    (column, match value {
        Some(v) => Some(SqlArgView::Text(v@)),
        None => None,
    })
}

/// A column with an optional value to set.
struct FieldUpdate {
    column: &'static str,
    value: Option<SqlArg>,
}

spec fn field_update_views(fields: Seq<FieldUpdate>) -> Seq<(Seq<char>, Option<SqlArgView>)> {
    fields.map_values(|f: FieldUpdate| (f.column@, match f.value {
        Some(v) => Some(v@),
        None => None,
    }))
}

fn plan_settings_update(table: &str, id: i64, fields: Vec<FieldUpdate>) -> (r: Result<SqlQuery, String>)
    ensures
        query_result_view(r) == settings_update_spec(table@, id, field_update_views(fields@)),
{
    let ghost fv = field_update_views(fields@);
    let mut columns: Vec<String> = Vec::new();
    let mut args: Vec<SqlArg> = Vec::new();
    let mut fields = fields;
    let ghost all = fields@;
    assert(all.skip(0) =~= all);
    // Walk the fields front to back, keeping the ones that carry a value.
    let n = fields.len();
    let mut i: usize = 0;
    while i < n
        invariant
            n == all.len(),
            fv == field_update_views(all),
            i <= n,
            fields@ == all.skip(i as int),
            views(columns@) == present_columns(fv.take(i as int)),
            args@.map_values(|a: SqlArg| a@) == present_values(fv.take(i as int)),
        decreases n - i,
    {
        let f = fields.remove(0);
        proof {
            assert(f == all[i as int]);
            assert(all.skip(i as int).remove(0) =~= all.skip(i + 1));
            assert(fv.take(i + 1).drop_last() =~= fv.take(i as int));
            assert(fv.take(i + 1).last() == fv[i as int]);
        }
        match f.value {
            Some(v) => {
                let ghost pc = columns@;
                let ghost pa = args@;
                columns.push(String::from_str(f.column));
                args.push(v);
                proof {
                    assert(views(columns@) =~= views(pc).push(f.column@));
                    assert(args@.map_values(|a: SqlArg| a@) =~= pa.map_values(|a: SqlArg| a@).push(v@));
                }
            },
            None => {},
        }
        i = i + 1;
    }
    assert(fv.take(n as int) =~= fv);
    if columns.len() == 0 {
        return Err(String::from_str("No fields to update"));
    }
    let mut sql = String::from_str("UPDATE ");
    sql.append(table);
    sql.append(" SET ");
    let sets = join_assignments(columns.as_slice(), ", ");
    sql.append(sets.as_str());
    sql.append(" WHERE id = ?");
    let ghost pa = args@;
    args.push(SqlArg::Int(id));
    proof {
        assert(args@.map_values(|a: SqlArg| a@) =~= pa.map_values(|a: SqlArg| a@).push(SqlArgView::Int(id as int)));
    }
    Ok(SqlQuery { sql, args })
}

fn text_arg(value: Option<String>) -> (r: Option<SqlArg>)
    ensures
        match value {
            Some(v) => r matches Some(SqlArg::Text(t)) && t@ == v@,
            None => r is None,
        },
{
    match value {
        Some(v) => Some(SqlArg::Text(v)),
        None => None,
    }
}

/// The update of a context axis: the given fields among name,
/// description, icon and color, in that order.
pub fn plan_context_axis_update(
    id: i64,
    name: Option<String>,
    description: Option<String>,
    icon: Option<String>,
    color: Option<String>,
) -> (r: Result<SqlQuery, String>)
    ensures
        query_result_view(r) == settings_update_spec("context_axis"@, id, seq![
            text_field("name"@, name),
            text_field("description"@, description),
            text_field("icon"@, icon),
            text_field("color"@, color),
        ]),
        r matches Ok(q) ==> binds_each_placeholder(q@),
{
    proof {
        let fields = seq![
            text_field("name"@, name),
            text_field("description"@, description),
            text_field("icon"@, icon),
            text_field("color"@, color),
        ];
        reveal_strlit("context_axis");
        reveal_strlit("name");
        reveal_strlit("description");
        reveal_strlit("icon");
        reveal_strlit("color");
        assert(free_of("context_axis"@, '?'));
        assert forall|i: int| 0 <= i < fields.len() implies free_of(#[trigger] fields[i].0, '?') by {}
        if settings_update_spec("context_axis"@, id, fields) is Ok {
            lemma_settings_update_binds_placeholders("context_axis"@, id, fields);
        }
    }
    let ghost (n0, d0, i0, c0) = (name, description, icon, color);
    let mut fields: Vec<FieldUpdate> = Vec::new();
    fields.push(FieldUpdate { column: "name", value: text_arg(name) });
    fields.push(FieldUpdate { column: "description", value: text_arg(description) });
    fields.push(FieldUpdate { column: "icon", value: text_arg(icon) });
    fields.push(FieldUpdate { column: "color", value: text_arg(color) });
    proof {
        assert(field_update_views(fields@) =~= seq![
            text_field("name"@, n0),
            text_field("description"@, d0),
            text_field("icon"@, i0),
            text_field("color"@, c0),
        ]);
    }
    plan_settings_update("context_axis", id, fields)
}

/// The update of an LLM endpoint.
#[derive(Debug, Clone)]
pub struct EndpointUpdate {
    /// Whether every endpoint is first marked as not the default (the
    /// endpoint becomes the default).
    pub clear_default: bool,
    pub statement: SqlQuery,
}

pub open spec fn flag_field(column: Seq<char>, value: Option<bool>) -> (Seq<char>, Option<SqlArgView>) {
    (column, match value {
        Some(b) => Some(SqlArgView::Int(if b { 1 } else { 0 })),
        None => None,
    })
}

/// At most one endpoint is marked as the default.
pub open spec fn at_most_one_default(flags: Map<i64, bool>) -> bool {
    forall|a: i64, b: i64| flags.dom().contains(a) && flags.dom().contains(b) && #[trigger] flags[a] && #[trigger] flags[b] ==> a == b
}

/// The default flags of the endpoints, by id, after an endpoint update of
/// row `id`: every flag cleared first when `clear_default`, then the row's
/// flag set to `is_default` when one is given and the row exists.
pub open spec fn defaults_after_update(flags: Map<i64, bool>, id: i64, clear_default: bool, is_default: Option<bool>) -> Map<i64, bool> {
    let cleared = if clear_default {
        Map::new(|k: i64| flags.dom().contains(k), |k: i64| false)
    } else {
        flags
    };
    match is_default {
        Some(b) => if cleared.dom().contains(id) { cleared.insert(id, b) } else { cleared },
        None => cleared,
    }
}

/// Updating an endpoint keeps at most one default: with the flag cleared
/// first exactly when the endpoint becomes the default (as
/// `plan_llm_endpoint_update` decides), a table with at most one default
/// keeps at most one, and making an existing endpoint the default leaves
/// it the only one.
pub proof fn lemma_endpoint_update_keeps_one_default(flags: Map<i64, bool>, id: i64, is_default: Option<bool>)
    requires
        at_most_one_default(flags),
    ensures
        at_most_one_default(defaults_after_update(flags, id, is_default == Some(true), is_default)),
        is_default == Some(true) && flags.dom().contains(id) ==> {
            let after = defaults_after_update(flags, id, true, is_default);
            after[id] && forall|k: i64| after.dom().contains(k) && k != id ==> !#[trigger] after[k]
        },
{
    let after = defaults_after_update(flags, id, is_default == Some(true), is_default);
    assert forall|a: i64, b: i64| after.dom().contains(a) && after.dom().contains(b) && #[trigger] after[a] && #[trigger] after[b]
        implies a == b by {
        if is_default != Some(true) {
            if a != id && b != id {
                assert(flags[a] && flags[b]);
            } else if a == id && b != id {
                assert(is_default == Some(false) || is_default is None);
                assert(flags[b]);
                if is_default is None {
                    assert(flags[a]);
                }
            } else if b == id && a != id {
                assert(flags[a]);
                if is_default is None {
                    assert(flags[b]);
                }
            }
        }
    }
}

/// The update of an LLM endpoint: the given fields among name, provider,
/// endpoint URL, API key, model and default flag, in that order; making it
/// the default first clears the flag on every endpoint.
pub fn plan_llm_endpoint_update(
    id: i64,
    name: Option<String>,
    provider: Option<String>,
    endpoint_url: Option<String>,
    api_key: Option<String>,
    model: Option<String>,
    is_default: Option<bool>,
) -> (r: Result<EndpointUpdate, String>)
    ensures
        match r {
            Ok(u) => u.clear_default == (is_default == Some(true)) && Ok::<SqlQueryView, Seq<char>>(u.statement@)
                == settings_update_spec("llm_endpoints"@, id, seq![
                    text_field("name"@, name),
                    text_field("provider"@, provider),
                    text_field("endpoint_url"@, endpoint_url),
                    text_field("api_key"@, api_key),
                    text_field("model"@, model),
                    flag_field("is_default"@, is_default),
                ]),
            Err(e) => Err::<SqlQueryView, Seq<char>>(e@) == settings_update_spec("llm_endpoints"@, id, seq![
                    text_field("name"@, name),
                    text_field("provider"@, provider),
                    text_field("endpoint_url"@, endpoint_url),
                    text_field("api_key"@, api_key),
                    text_field("model"@, model),
                    flag_field("is_default"@, is_default),
                ]),
        },
        r matches Ok(u) ==> binds_each_placeholder(u.statement@),
{
    proof {
        let fields = seq![
            text_field("name"@, name),
            text_field("provider"@, provider),
            text_field("endpoint_url"@, endpoint_url),
            text_field("api_key"@, api_key),
            text_field("model"@, model),
            flag_field("is_default"@, is_default),
        ];
        reveal_strlit("llm_endpoints");
        reveal_strlit("name");
        reveal_strlit("provider");
        reveal_strlit("endpoint_url");
        reveal_strlit("api_key");
        reveal_strlit("model");
        reveal_strlit("is_default");
        assert(free_of("llm_endpoints"@, '?'));
        assert forall|i: int| 0 <= i < fields.len() implies free_of(#[trigger] fields[i].0, '?') by {}
        if settings_update_spec("llm_endpoints"@, id, fields) is Ok {
            lemma_settings_update_binds_placeholders("llm_endpoints"@, id, fields);
        }
    }
    let ghost (n0, p0, u0, k0, m0) = (name, provider, endpoint_url, api_key, model);
    let flag: Option<SqlArg> = match is_default {
        Some(true) => Some(SqlArg::Int(1)),
        Some(false) => Some(SqlArg::Int(0)),
        None => None,
    };
    let mut fields: Vec<FieldUpdate> = Vec::new();
    fields.push(FieldUpdate { column: "name", value: text_arg(name) });
    fields.push(FieldUpdate { column: "provider", value: text_arg(provider) });
    fields.push(FieldUpdate { column: "endpoint_url", value: text_arg(endpoint_url) });
    fields.push(FieldUpdate { column: "api_key", value: text_arg(api_key) });
    fields.push(FieldUpdate { column: "model", value: text_arg(model) });
    fields.push(FieldUpdate { column: "is_default", value: flag });
    proof {
        assert(field_update_views(fields@) =~= seq![
            text_field("name"@, n0),
            text_field("provider"@, p0),
            text_field("endpoint_url"@, u0),
            text_field("api_key"@, k0),
            text_field("model"@, m0),
            flag_field("is_default"@, is_default),
        ]);
    }
    let statement = plan_settings_update("llm_endpoints", id, fields)?;
    let clear_default = match is_default {
        Some(true) => true,
        _ => false,
    };
    Ok(EndpointUpdate { clear_default, statement })
}

} // verus!
