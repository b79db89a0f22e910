//! Placeholder accounting: every statement the library plans binds exactly
//! one argument for each `?` mark in its text, so what the caller supplies
//! always travels as a bound argument and never as statement text.

use crate::plugins::registry::{
    assignments, column_name_error, fetch_statement, is_column_name_char, is_safe_identifier, items_query_spec,
    lemma_items_query_identifiers_valid, lemma_no_first_error, lemma_table_name_safe, limit_clause, mutation_spec,
    numbered_placeholders, order_clause, present_columns, present_values, set_by_id_sql, settings_update_spec,
    sort_keyword_of, table_name_for, where_clause, ItemMutationView, SqlArgView, SqlQueryView,
};
use crate::text::{decimal, decimal_nat, digit_char, free_of, join_with, lemma_join_free_of, lowercase};
use vstd::prelude::*;

verus! {

/// The number of `?` marks in a statement text.
pub open spec fn placeholder_count(sql: Seq<char>) -> nat
    decreases sql.len(),
{
    if sql.len() == 0 {
        0
    } else {
        placeholder_count(sql.drop_last()) + if sql.last() == '?' { 1nat } else { 0nat }
    }
}

/// A statement carries exactly one argument per `?` mark of its text.
pub open spec fn binds_each_placeholder(q: SqlQueryView) -> bool {
    placeholder_count(q.sql) == q.args.len()
}

/// Every statement of a planned mutation binds one argument per mark.
pub open spec fn mutation_binds_placeholders(m: ItemMutationView) -> bool {
    match m {
        ItemMutationView::Create { insert, fetch, .. } => binds_each_placeholder(insert) && binds_each_placeholder(fetch),
        ItemMutationView::Update { statement, .. } => binds_each_placeholder(statement),
        ItemMutationView::Delete { statement, .. } => binds_each_placeholder(statement),
    }
}

/// The `?` marks of all the parts together.
pub open spec fn total_count(parts: Seq<Seq<char>>) -> nat
    decreases parts.len(),
{
    if parts.len() == 0 {
        0
    } else {
        total_count(parts.drop_last()) + placeholder_count(parts.last())
    }
}

proof fn lemma_count_append(a: Seq<char>, b: Seq<char>)
    ensures
        placeholder_count(a + b) == placeholder_count(a) + placeholder_count(b),
    decreases b.len(),
{
    if b.len() == 0 {
        assert(a + b =~= a);
    } else {
        lemma_count_append(a, b.drop_last());
        assert((a + b).drop_last() =~= a + b.drop_last());
        assert((a + b).last() == b.last());
    }
}

proof fn lemma_count_free(s: Seq<char>)
    requires
        free_of(s, '?'),
    ensures
        placeholder_count(s) == 0,
    decreases s.len(),
{
    if s.len() > 0 {
        assert(free_of(s.drop_last(), '?')) by {
            assert forall|i: int| 0 <= i < s.drop_last().len() implies s.drop_last()[i] != '?' by {
                assert(s.drop_last()[i] == s[i]);
            }
        }
        lemma_count_free(s.drop_last());
    }
}

/// A text whose only `?` is at position `k`.
proof fn lemma_count_single(s: Seq<char>, k: int)
    requires
        0 <= k < s.len(),
        s[k] == '?',
        forall|i: int| 0 <= i < s.len() && i != k ==> s[i] != '?',
    ensures
        placeholder_count(s) == 1,
{
    let before = s.take(k);
    let mark = seq!['?'];
    let after = s.skip(k + 1);
    assert(s =~= before + mark + after);
    assert(free_of(before, '?')) by {
        assert forall|i: int| 0 <= i < before.len() implies before[i] != '?' by {
            assert(before[i] == s[i]);
        }
    }
    assert(free_of(after, '?')) by {
        assert forall|i: int| 0 <= i < after.len() implies after[i] != '?' by {
            assert(after[i] == s[k + 1 + i]);
        }
    }
    lemma_count_free(before);
    lemma_count_free(after);
    assert(mark.drop_last() =~= Seq::<char>::empty());
    assert(placeholder_count(Seq::<char>::empty()) == 0);
    lemma_count_append(before, mark);
    lemma_count_append(before + mark, after);
}

/// Joining with a separator that has no `?` keeps every part's marks and
/// adds none.
proof fn lemma_count_join(parts: Seq<Seq<char>>, sep: Seq<char>)
    requires
        free_of(sep, '?'),
    ensures
        placeholder_count(join_with(parts, sep)) == total_count(parts),
    decreases parts.len(),
{
    if parts.len() == 0 {
        assert(placeholder_count(Seq::<char>::empty()) == 0);
    } else if parts.len() == 1 {
        assert(parts.drop_last() =~= Seq::<Seq<char>>::empty());
        assert(total_count(Seq::<Seq<char>>::empty()) == 0);
    } else {
        lemma_count_join(parts.drop_last(), sep);
        lemma_count_free(sep);
        lemma_count_append(join_with(parts.drop_last(), sep), sep);
        lemma_count_append(join_with(parts.drop_last(), sep) + sep, parts.last());
    }
}

proof fn lemma_total_append(a: Seq<Seq<char>>, b: Seq<Seq<char>>)
    ensures
        total_count(a + b) == total_count(a) + total_count(b),
    decreases b.len(),
{
    if b.len() == 0 {
        assert(a + b =~= a);
    } else {
        lemma_total_append(a, b.drop_last());
        assert((a + b).drop_last() =~= a + b.drop_last());
        assert((a + b).last() == b.last());
    }
}

/// Parts with one mark each.
proof fn lemma_total_ones(parts: Seq<Seq<char>>)
    requires
        forall|i: int| 0 <= i < parts.len() ==> placeholder_count(#[trigger] parts[i]) == 1,
    ensures
        total_count(parts) == parts.len(),
    decreases parts.len(),
{
    if parts.len() > 0 {
        assert forall|i: int| 0 <= i < parts.drop_last().len() implies placeholder_count(#[trigger] parts.drop_last()[i]) == 1 by {
            assert(parts.drop_last()[i] == parts[i]);
        }
        lemma_total_ones(parts.drop_last());
    }
}

/// Parts without marks.
proof fn lemma_total_free(parts: Seq<Seq<char>>)
    requires
        forall|i: int| 0 <= i < parts.len() ==> free_of(#[trigger] parts[i], '?'),
    ensures
        total_count(parts) == 0,
    decreases parts.len(),
{
    if parts.len() > 0 {
        assert forall|i: int| 0 <= i < parts.drop_last().len() implies free_of(#[trigger] parts.drop_last()[i], '?') by {
            assert(parts.drop_last()[i] == parts[i]);
        }
        lemma_total_free(parts.drop_last());
        lemma_count_free(parts.last());
    }
}

proof fn lemma_decimal_nat_free(n: nat)
    ensures
        free_of(decimal_nat(n), '?'),
    decreases n,
{
    if n >= 10 {
        lemma_decimal_nat_free(n / 10);
        let d = decimal_nat(n / 10).push(digit_char((n % 10) as int));
        assert forall|i: int| 0 <= i < d.len() implies d[i] != '?' by {
            if i < d.len() - 1 {
                assert(d[i] == decimal_nat(n / 10)[i]);
            }
        }
    }
}

proof fn lemma_decimal_free(i: int)
    ensures
        free_of(decimal(i), '?'),
{
    if i < 0 {
        lemma_decimal_nat_free((-i) as nat);
        let d = seq!['-'] + decimal_nat((-i) as nat);
        assert forall|k: int| 0 <= k < d.len() implies d[k] != '?' by {
            if k > 0 {
                assert(d[k] == decimal_nat((-i) as nat)[k - 1]);
            }
        }
    } else {
        lemma_decimal_nat_free(i as nat);
    }
}

proof fn lemma_identifier_free(s: Seq<char>)
    requires
        is_safe_identifier(s),
    ensures
        free_of(s, '?'),
{
    assert forall|i: int| 0 <= i < s.len() implies s[i] != '?' by {
        assert(is_column_name_char(s[i]));
    }
}

proof fn lemma_column_free(s: Seq<char>)
    requires
        column_name_error(s) is None,
    ensures
        free_of(s, '?'),
{
    assert forall|i: int| 0 <= i < s.len() implies s[i] != '?' by {
        assert(is_column_name_char(s[i]));
    }
}

/// `name = ?` has one mark when the name has none.
proof fn lemma_assignment_count(name: Seq<char>)
    requires
        free_of(name, '?'),
    ensures
        placeholder_count(name + " = ?"@) == 1,
{
    reveal_strlit(" = ?");
    let s = name + " = ?"@;
    assert forall|i: int| 0 <= i < s.len() && i != s.len() - 1 implies s[i] != '?' by {
        if i < name.len() {
            assert(s[i] == name[i]);
        }
    }
    lemma_count_single(s, s.len() - 1);
}

proof fn lemma_assignments_count(names: Seq<Seq<char>>, sep: Seq<char>)
    requires
        free_of(sep, '?'),
        forall|i: int| 0 <= i < names.len() ==> free_of(#[trigger] names[i], '?'),
    ensures
        placeholder_count(join_with(assignments(names), sep)) == names.len(),
{
    let parts = assignments(names);
    assert forall|i: int| 0 <= i < parts.len() implies placeholder_count(#[trigger] parts[i]) == 1 by {
        lemma_assignment_count(names[i]);
    }
    lemma_total_ones(parts);
    lemma_count_join(parts, sep);
}

proof fn lemma_free_columns(names: Seq<Seq<char>>)
    requires
        forall|i: int| 0 <= i < names.len() ==> column_name_error(#[trigger] names[i]) is None,
    ensures
        forall|i: int| 0 <= i < names.len() ==> free_of(#[trigger] names[i], '?'),
{
    assert forall|i: int| 0 <= i < names.len() implies free_of(#[trigger] names[i], '?') by {
        lemma_column_free(names[i]);
    }
}

proof fn lemma_where_count(keys: Seq<Seq<char>>)
    requires
        forall|i: int| 0 <= i < keys.len() ==> free_of(#[trigger] keys[i], '?'),
    ensures
        placeholder_count(where_clause(keys)) == keys.len(),
{
    if keys.len() > 0 {
        reveal_strlit(" WHERE ");
        reveal_strlit(" AND ");
        assert(free_of(" AND "@, '?'));
        assert(free_of(" WHERE "@, '?'));
        lemma_assignments_count(keys, " AND "@);
        lemma_count_free(" WHERE "@);
        lemma_count_append(" WHERE "@, join_with(assignments(keys), " AND "@));
    } else {
        assert(placeholder_count(Seq::<char>::empty()) == 0);
    }
}

proof fn lemma_order_free(column: Option<Seq<char>>, keyword: Option<Seq<char>>)
    requires
        column matches Some(c) ==> free_of(c, '?'),
        column is Some && keyword is Some ==> keyword->0 == "ASC"@ || keyword->0 == "DESC"@,
    ensures
        free_of(order_clause(column, keyword), '?'),
{
    reveal_strlit(" ORDER BY ");
    reveal_strlit(" ");
    reveal_strlit("ASC");
    reveal_strlit("DESC");
    if let Some(c) = column {
        let k = match keyword {
            Some(k) => " "@ + k,
            None => Seq::<char>::empty(),
        };
        assert(free_of(k, '?')) by {
            if let Some(w) = keyword {
                assert forall|i: int| 0 <= i < k.len() implies k[i] != '?' by {
                    if i > 0 {
                        assert(k[i] == w[i - 1]);
                    }
                }
            }
        }
        let s = " ORDER BY "@ + c + k;
        assert forall|i: int| 0 <= i < s.len() implies s[i] != '?' by {
            if i < 10 {
            } else if i < 10 + c.len() {
                assert(s[i] == c[i - 10]);
            } else {
                assert(s[i] == k[i - 10 - c.len()]);
            }
        }
    }
}

proof fn lemma_limit_free(limit: Option<i64>, offset: Option<i64>)
    ensures
        free_of(limit_clause(limit, offset), '?'),
{
    reveal_strlit(" LIMIT ");
    reveal_strlit(" OFFSET ");
    let a = match limit {
        Some(l) => " LIMIT "@ + decimal(l as int),
        None => Seq::<char>::empty(),
    };
    let b = match offset {
        Some(o) => " OFFSET "@ + decimal(o as int),
        None => Seq::<char>::empty(),
    };
    assert(free_of(a, '?')) by {
        if let Some(l) = limit {
            lemma_decimal_free(l as int);
            assert forall|i: int| 0 <= i < a.len() implies a[i] != '?' by {
                if i >= 7 {
                    assert(a[i] == decimal(l as int)[i - 7]);
                }
            }
        }
    }
    assert(free_of(b, '?')) by {
        if let Some(o) = offset {
            lemma_decimal_free(o as int);
            assert forall|i: int| 0 <= i < b.len() implies b[i] != '?' by {
                if i >= 8 {
                    assert(b[i] == decimal(o as int)[i - 8]);
                }
            }
        }
    }
    let s = a + b;
    assert forall|i: int| 0 <= i < s.len() implies s[i] != '?' by {
        if i < a.len() {
            assert(s[i] == a[i]);
        } else {
            assert(s[i] == b[i - a.len()]);
        }
    }
}

/// Every select statement planned for `query_items` binds one filter value
/// per `?` mark: identifiers, keywords and numbers hold none.
pub proof fn lemma_items_query_binds_placeholders(
    plugin: Seq<char>,
    columns: Option<Seq<Seq<char>>>,
    filter_keys: Option<Seq<Seq<char>>>,
    sort_column: Option<Seq<char>>,
    sort_direction: Option<Seq<char>>,
    limit: Option<i64>,
    offset: Option<i64>,
)
    requires
        items_query_spec(plugin, columns, filter_keys, sort_column, sort_direction, limit, offset) is Ok,
    ensures
        binds_each_placeholder(items_query_spec(plugin, columns, filter_keys, sort_column, sort_direction, limit, offset)->Ok_0),
{
    lemma_items_query_identifiers_valid(plugin, columns, filter_keys, sort_column, sort_direction, limit, offset);
    reveal_strlit("SELECT ");
    reveal_strlit(" FROM ");
    reveal_strlit(", ");
    reveal_strlit("*");
    reveal_strlit("ASC");
    reveal_strlit("DESC");
    reveal_strlit("asc");
    reveal_strlit("desc");
    let keys = match filter_keys {
        Some(k) => k,
        None => Seq::<Seq<char>>::empty(),
    };
    let cols = match columns {
        Some(c) => join_with(c, ", "@),
        None => "*"@,
    };
    let keyword = match sort_direction {
        Some(d) => Some(sort_keyword_of(lowercase(d))->Ok_0),
        None => None,
    };
    assert(free_of(cols, '?')) by {
        if let Some(c) = columns {
            lemma_free_columns(c);
            assert(free_of(", "@, '?'));
            lemma_join_free_of(c, ", "@, '?');
        }
    }
    if let Some(k) = filter_keys {
        lemma_free_columns(k);
    }
    lemma_where_count(keys);
    lemma_identifier_free(table_name_for(plugin));
    if let Some(c) = sort_column {
        lemma_column_free(c);
    }
    lemma_order_free(sort_column, keyword);
    lemma_limit_free(limit, offset);
    let w = where_clause(keys);
    let o = order_clause(sort_column, keyword);
    let l = limit_clause(limit, offset);
    let head = "SELECT "@ + cols + " FROM "@ + table_name_for(plugin);
    assert(free_of(head, '?')) by {
        let t = table_name_for(plugin);
        assert forall|i: int| 0 <= i < head.len() implies head[i] != '?' by {
            if i < 7 {
            } else if i < 7 + cols.len() {
                assert(head[i] == cols[i - 7]);
            } else if i < 13 + cols.len() {
            } else {
                assert(head[i] == t[i - 13 - cols.len()]);
            }
        }
    }
    lemma_count_free(head);
    lemma_count_free(o);
    lemma_count_free(l);
    lemma_count_append(head, w);
    lemma_count_append(head + w, o);
    lemma_count_append(head + w + o, l);
}

proof fn lemma_free_concat(a: Seq<char>, b: Seq<char>)
    requires
        free_of(a, '?'),
        free_of(b, '?'),
    ensures
        free_of(a + b, '?'),
{
    assert forall|i: int| 0 <= i < (a + b).len() implies (a + b)[i] != '?' by {
        if i < a.len() {
            assert((a + b)[i] == a[i]);
        } else {
            assert((a + b)[i] == b[i - a.len()]);
        }
    }
}

/// A one-part list holds that part's marks.
proof fn lemma_total_single(p: Seq<char>)
    ensures
        total_count(seq![p]) == placeholder_count(p),
{
    assert(seq![p].drop_last() =~= Seq::<Seq<char>>::empty());
    assert(total_count(Seq::<Seq<char>>::empty()) == 0);
}

/// A table name followed by a literal that ends the statement.
proof fn lemma_statement_count(head: Seq<char>, table: Seq<char>, middle: Seq<char>, tail: Seq<char>)
    requires
        free_of(head, '?'),
        free_of(table, '?'),
    ensures
        placeholder_count(head + table + middle + tail)
            == placeholder_count(middle) + placeholder_count(tail),
{
    lemma_count_free(head);
    lemma_count_free(table);
    lemma_count_append(head, table);
    lemma_count_append(head + table, middle);
    lemma_count_append(head + table + middle, tail);
}

proof fn lemma_marked_literals()
    ensures
        placeholder_count(" WHERE id = ?"@) == 1,
        placeholder_count(" WHERE id = ?1"@) == 1,
        placeholder_count("?1"@) == 1,
        free_of("datetime('now')"@, '?'),
        free_of("INSERT INTO "@, '?'),
        free_of("SELECT * FROM "@, '?'),
        free_of("UPDATE "@, '?'),
        free_of("DELETE FROM "@, '?'),
        free_of(" SET "@, '?'),
        free_of(" ("@, '?'),
        free_of(") VALUES ("@, '?'),
        free_of(")"@, '?'),
        free_of(", "@, '?'),
        free_of("id"@, '?'),
        free_of("created_at"@, '?'),
{
    reveal_strlit(" WHERE id = ?");
    reveal_strlit(" WHERE id = ?1");
    reveal_strlit("?1");
    reveal_strlit("datetime('now')");
    reveal_strlit("INSERT INTO ");
    reveal_strlit("SELECT * FROM ");
    reveal_strlit("UPDATE ");
    reveal_strlit("DELETE FROM ");
    reveal_strlit(" SET ");
    reveal_strlit(" (");
    reveal_strlit(") VALUES (");
    reveal_strlit(")");
    reveal_strlit(", ");
    reveal_strlit("id");
    reveal_strlit("created_at");
    lemma_count_single(" WHERE id = ?"@, 12);
    lemma_count_single(" WHERE id = ?1"@, 12);
    lemma_count_single("?1"@, 0);
}

/// `?n` marks: one each.
proof fn lemma_numbered_count(n: nat)
    ensures
        total_count(numbered_placeholders(n)) == n,
{
    let parts = numbered_placeholders(n);
    reveal_strlit("?");
    assert forall|i: int| 0 <= i < parts.len() implies placeholder_count(#[trigger] parts[i]) == 1 by {
        let d = decimal(i + 2);
        lemma_decimal_free(i + 2);
        let s = "?"@ + d;
        assert(parts[i] == s);
        assert forall|k: int| 0 <= k < s.len() && k != 0 implies s[k] != '?' by {
            assert(s[k] == d[k - 1]);
        }
        lemma_count_single(s, 0);
    }
    lemma_total_ones(parts);
}

/// Every statement planned for `mutate_item` binds one argument per `?`
/// mark: the insert binds the new id and each field, the read-back and the
/// delete bind the id, and the update binds each field and then the id.
pub proof fn lemma_mutation_binds_placeholders(
    plugin: Seq<char>,
    operation: Seq<char>,
    id: Option<Seq<char>>,
    fields: Seq<Seq<char>>,
    new_id: Seq<char>,
)
    requires
        mutation_spec(plugin, operation, id, fields, new_id) is Ok,
    ensures
        mutation_binds_placeholders(mutation_spec(plugin, operation, id, fields, new_id)->Ok_0),
{
    let table = table_name_for(plugin);
    lemma_table_name_safe(plugin);
    lemma_identifier_free(table);
    lemma_marked_literals();
    match mutation_spec(plugin, operation, id, fields, new_id)->Ok_0 {
        ItemMutationView::Create { insert, fetch, .. } => {
            lemma_no_first_error(fields);
            lemma_free_columns(fields);
            let names = seq!["id"@, "created_at"@] + fields;
            assert forall|i: int| 0 <= i < names.len() implies free_of(#[trigger] names[i], '?') by {
                if i >= 2 {
                    assert(names[i] == fields[i - 2]);
                }
            }
            lemma_join_free_of(names, ", "@, '?');
            let marks = seq!["?1"@, "datetime('now')"@] + numbered_placeholders(fields.len());
            lemma_count_join(marks, ", "@);
            lemma_total_append(seq!["?1"@, "datetime('now')"@], numbered_placeholders(fields.len()));
            lemma_total_append(seq!["?1"@], seq!["datetime('now')"@]);
            assert(seq!["?1"@] + seq!["datetime('now')"@] =~= seq!["?1"@, "datetime('now')"@]);
            lemma_total_single("?1"@);
            lemma_total_single("datetime('now')"@);
            lemma_count_free("datetime('now')"@);
            lemma_numbered_count(fields.len());
            let head = "INSERT INTO "@ + table + " ("@ + join_with(names, ", "@) + ") VALUES ("@;
            let j = join_with(names, ", "@);
            lemma_free_concat("INSERT INTO "@, table);
            lemma_free_concat("INSERT INTO "@ + table, " ("@);
            lemma_free_concat("INSERT INTO "@ + table + " ("@, j);
            lemma_free_concat("INSERT INTO "@ + table + " ("@ + j, ") VALUES ("@);
            lemma_count_free(head);
            lemma_count_free(")"@);
            lemma_count_append(head, join_with(marks, ", "@));
            lemma_count_append(head + join_with(marks, ", "@), ")"@);
            assert(insert.sql == head + join_with(marks, ", "@) + ")"@);
            lemma_statement_count("SELECT * FROM "@, table, Seq::<char>::empty(), " WHERE id = ?1"@);
            assert(placeholder_count(Seq::<char>::empty()) == 0);
            assert(fetch.sql =~= "SELECT * FROM "@ + table + Seq::<char>::empty() + " WHERE id = ?1"@);
        },
        ItemMutationView::Update { statement, id: i } => {
            lemma_no_first_error(fields);
            lemma_free_columns(fields);
            lemma_assignments_count(fields, ", "@);
            lemma_count_free(" SET "@);
            lemma_count_append(" SET "@, join_with(assignments(fields), ", "@));
            lemma_statement_count("UPDATE "@, table, " SET "@ + join_with(assignments(fields), ", "@), " WHERE id = ?"@);
            assert(statement.sql =~= "UPDATE "@ + table + (" SET "@ + join_with(assignments(fields), ", "@)) + " WHERE id = ?"@);
        },
        ItemMutationView::Delete { statement, .. } => {
            lemma_statement_count("DELETE FROM "@, table, Seq::<char>::empty(), " WHERE id = ?"@);
            assert(placeholder_count(Seq::<char>::empty()) == 0);
            assert(statement.sql =~= "DELETE FROM "@ + table + Seq::<char>::empty() + " WHERE id = ?"@);
        },
    }
}

proof fn lemma_present_fields(fields: Seq<(Seq<char>, Option<SqlArgView>)>)
    requires
        forall|i: int| 0 <= i < fields.len() ==> free_of(#[trigger] fields[i].0, '?'),
    ensures
        present_columns(fields).len() == present_values(fields).len(),
        forall|i: int| 0 <= i < present_columns(fields).len() ==> free_of(#[trigger] present_columns(fields)[i], '?'),
    decreases fields.len(),
{
    if fields.len() > 0 {
        let init = fields.drop_last();
        assert forall|i: int| 0 <= i < init.len() implies free_of(#[trigger] init[i].0, '?') by {
            assert(init[i] == fields[i]);
        }
        lemma_present_fields(init);
        let cols = present_columns(fields);
        let prev = present_columns(init);
        assert forall|i: int| 0 <= i < cols.len() implies free_of(#[trigger] cols[i], '?') by {
            if i < prev.len() {
                assert(cols[i] == prev[i]);
            } else {
                assert(cols[i] == fields.last().0);
            }
        }
    }
}

/// An update of settings binds one value per `?` mark, the row id last,
/// when the table and column names hold no `?`.
pub proof fn lemma_settings_update_binds_placeholders(
    table: Seq<char>,
    id: i64,
    fields: Seq<(Seq<char>, Option<SqlArgView>)>,
)
    requires
        settings_update_spec(table, id, fields) is Ok,
        free_of(table, '?'),
        forall|i: int| 0 <= i < fields.len() ==> free_of(#[trigger] fields[i].0, '?'),
    ensures
        binds_each_placeholder(settings_update_spec(table, id, fields)->Ok_0),
{
    lemma_marked_literals();
    lemma_present_fields(fields);
    let cols = present_columns(fields);
    lemma_assignments_count(cols, ", "@);
    lemma_count_free(" SET "@);
    lemma_count_append(" SET "@, join_with(assignments(cols), ", "@));
    lemma_statement_count("UPDATE "@, table, " SET "@ + join_with(assignments(cols), ", "@), " WHERE id = ?"@);
    assert(set_by_id_sql(table, cols) =~= "UPDATE "@ + table + (" SET "@ + join_with(assignments(cols), ", "@)) + " WHERE id = ?"@);
}

/// The statement that reads back one item binds its id.
pub proof fn lemma_fetch_binds_placeholders(table: Seq<char>, id: Seq<char>)
    requires
        free_of(table, '?'),
    ensures
        binds_each_placeholder(fetch_statement(table, id)),
{
    lemma_marked_literals();
    lemma_statement_count("SELECT * FROM "@, table, Seq::<char>::empty(), " WHERE id = ?1"@);
    assert(placeholder_count(Seq::<char>::empty()) == 0);
    assert(fetch_statement(table, id).sql =~= "SELECT * FROM "@ + table + Seq::<char>::empty() + " WHERE id = ?1"@);
}

/// A text whose marks are split by position `k` into two single marks.
proof fn lemma_count_two(s: Seq<char>, k: int, a: int, b: int)
    requires
        0 <= a < k <= b < s.len(),
        s[a] == '?',
        s[b] == '?',
        forall|i: int| 0 <= i < s.len() && i != a && i != b ==> s[i] != '?',
    ensures
        placeholder_count(s) == 2,
{
    let x = s.take(k);
    let y = s.skip(k);
    assert(s =~= x + y);
    assert forall|i: int| 0 <= i < x.len() && i != a implies x[i] != '?' by {
        assert(x[i] == s[i]);
    }
    assert forall|i: int| 0 <= i < y.len() && i != b - k implies y[i] != '?' by {
        assert(y[i] == s[k + i]);
    }
    lemma_count_single(x, a);
    lemma_count_single(y, b - k);
    lemma_count_append(x, y);
}

/// The two statements that store a classification bind the axis and then
/// the item id.
pub proof fn lemma_classification_binds_placeholders(table: Seq<char>)
    requires
        free_of(table, '?'),
    ensures
        placeholder_count("UPDATE "@ + table + " SET cognitive_axis = ?1 WHERE id = ?2"@) == 2,
        placeholder_count("UPDATE "@ + table + " SET context_axis = ?1 WHERE id = ?2"@) == 2,
{
    lemma_marked_literals();
    reveal_strlit(" SET cognitive_axis = ?1 WHERE id = ?2");
    reveal_strlit(" SET context_axis = ?1 WHERE id = ?2");
    lemma_count_two(" SET cognitive_axis = ?1 WHERE id = ?2"@, 24, 22, 36);
    lemma_count_two(" SET context_axis = ?1 WHERE id = ?2"@, 22, 20, 34);
    lemma_statement_count("UPDATE "@, table, Seq::<char>::empty(), " SET cognitive_axis = ?1 WHERE id = ?2"@);
    lemma_statement_count("UPDATE "@, table, Seq::<char>::empty(), " SET context_axis = ?1 WHERE id = ?2"@);
    assert(placeholder_count(Seq::<char>::empty()) == 0);
    assert("UPDATE "@ + table + " SET cognitive_axis = ?1 WHERE id = ?2"@
        =~= "UPDATE "@ + table + Seq::<char>::empty() + " SET cognitive_axis = ?1 WHERE id = ?2"@);
    assert("UPDATE "@ + table + " SET context_axis = ?1 WHERE id = ?2"@
        =~= "UPDATE "@ + table + Seq::<char>::empty() + " SET context_axis = ?1 WHERE id = ?2"@);
}

} // verus!
