use saya_core::llm::LlmEndpoint;
use saya_core::plugins::registry::{
    build_classification_system_prompt, build_items_query, classification_statements, item_fetch_statement, build_user_prompt_for_item, choose_llm_endpoint,
    classify_item, parse_column_summary, plan_context_axis_update, plan_item_mutation, plan_item_mutation_with_id,
    plan_llm_endpoint_update, prompt_columns, safe_join_columns, safe_table_name, summarize_ai_action,
    validate_column_name, validate_item_id, validate_plugin_name, validate_sort_direction, ItemField, ItemMutation,
    ItemOutcome, SqlArg,
};
use saya_core::plugins::PluginColumn;

fn strings(v: &[&str]) -> Vec<String> {
    v.iter().map(|s| s.to_string()).collect()
}

fn fields_of(args: &[SqlArg]) -> Vec<String> {
    args.iter()
        .map(|a| match a {
            SqlArg::Text(t) => format!("text:{}", t),
            SqlArg::Int(i) => format!("int:{}", i),
            SqlArg::Field(i) => format!("field:{}", i),
        })
        .collect()
}

#[test]
fn plugin_names() {
    assert!(validate_plugin_name("email").is_ok());
    assert!(validate_plugin_name("my-plugin-2").is_ok());
    assert_eq!(validate_plugin_name("").unwrap_err(), "Plugin name must be 1-64 characters");
    assert_eq!(validate_plugin_name(&"a".repeat(65)).unwrap_err(), "Plugin name must be 1-64 characters");
    assert!(validate_plugin_name(&"a".repeat(64)).is_ok());
    assert_eq!(
        validate_plugin_name("Email").unwrap_err(),
        "Plugin name must contain only lowercase letters, digits, and hyphens"
    );
    assert_eq!(
        validate_plugin_name("a_b").unwrap_err(),
        "Plugin name must contain only lowercase letters, digits, and hyphens"
    );
    // 33 two-byte characters are 66 bytes: the length check comes first.
    assert_eq!(validate_plugin_name(&"é".repeat(33)).unwrap_err(), "Plugin name must be 1-64 characters");
}

#[test]
fn column_names_and_ids() {
    assert!(validate_column_name("Subject_1").is_ok());
    assert_eq!(
        validate_column_name("a-b").unwrap_err(),
        "Column name must contain only letters, digits, and underscores"
    );
    assert_eq!(validate_column_name("").unwrap_err(), "Column name must be 1-128 characters");
    assert!(validate_column_name(&"x".repeat(128)).is_ok());
    assert!(validate_column_name(&"x".repeat(129)).is_err());
    assert!(validate_item_id("abc-DEF_1").is_ok());
    assert_eq!(
        validate_item_id("a b").unwrap_err(),
        "Item ID must contain only letters, digits, hyphens, and underscores"
    );
    assert_eq!(validate_item_id("").unwrap_err(), "Item ID must be 1-128 characters");
}

#[test]
fn sort_directions() {
    assert_eq!(validate_sort_direction("asc").unwrap(), "ASC");
    assert_eq!(validate_sort_direction("DeSc").unwrap(), "DESC");
    assert_eq!(validate_sort_direction("up").unwrap_err(), "Sort direction must be 'asc' or 'desc'");
}

#[test]
fn table_names() {
    assert_eq!(safe_table_name("my-plugin").unwrap(), "my_plugin_items");
    assert_eq!(safe_table_name("email").unwrap(), "email_items");
    assert!(safe_table_name("bad name").is_err());
}

#[test]
fn joined_columns() {
    assert_eq!(safe_join_columns(&strings(&["a", "b", "c"])).unwrap(), "a, b, c");
    assert_eq!(safe_join_columns(&[]).unwrap(), "");
    assert_eq!(
        safe_join_columns(&strings(&["a", "b;", "c d"])).unwrap_err(),
        "Column name must contain only letters, digits, and underscores"
    );
}

#[test]
fn items_query_full() {
    let cols = strings(&["id", "subject"]);
    let keys = strings(&["context_axis", "cognitive_axis"]);
    let q = build_items_query("my-mail", Some(&cols), Some(&keys), Some("subject"), Some("Desc"), Some(10), Some(-5))
        .unwrap();
    assert_eq!(
        q.sql,
        "SELECT id, subject FROM my_mail_items WHERE context_axis = ? AND cognitive_axis = ? ORDER BY subject DESC LIMIT 10 OFFSET -5"
    );
    assert_eq!(fields_of(&q.args), strings(&["field:0", "field:1"]));
}

#[test]
fn items_query_minimal() {
    let q = build_items_query("email", None, None, None, Some("sideways"), None, None).unwrap();
    assert_eq!(q.sql, "SELECT * FROM email_items");
    assert!(q.args.is_empty());
    let q = build_items_query("email", None, Some(&[]), Some("x"), None, Some(i64::MIN), None).unwrap();
    assert_eq!(q.sql, "SELECT * FROM email_items ORDER BY x LIMIT -9223372036854775808");
}

#[test]
fn items_query_errors_in_order() {
    let bad = strings(&["x y"]);
    assert_eq!(
        build_items_query("Bad", Some(&bad), None, None, None, None, None).unwrap_err(),
        "Plugin name must contain only lowercase letters, digits, and hyphens"
    );
    assert_eq!(
        build_items_query("ok", Some(&bad), None, None, None, None, None).unwrap_err(),
        "Column name must contain only letters, digits, and underscores"
    );
    assert_eq!(
        build_items_query("ok", None, Some(&bad), None, None, None, None).unwrap_err(),
        "Column name must contain only letters, digits, and underscores"
    );
    assert_eq!(
        build_items_query("ok", None, None, Some("a;b"), Some("up"), None, None).unwrap_err(),
        "Column name must contain only letters, digits, and underscores"
    );
    assert_eq!(
        build_items_query("ok", None, None, Some("a"), Some("up"), None, None).unwrap_err(),
        "Sort direction must be 'asc' or 'desc'"
    );
}

#[test]
fn mutation_create() {
    let fields = strings(&["subject", "sender"]);
    match plan_item_mutation_with_id("email", "create", None, &fields, "id-1").unwrap() {
        ItemMutation::Create { id, insert, fetch } => {
            assert_eq!(id, "id-1");
            assert_eq!(
                insert.sql,
                "INSERT INTO email_items (id, created_at, subject, sender) VALUES (?1, datetime('now'), ?2, ?3)"
            );
            assert_eq!(fields_of(&insert.args), strings(&["text:id-1", "field:0", "field:1"]));
            assert_eq!(fetch.sql, "SELECT * FROM email_items WHERE id = ?1");
            assert_eq!(fields_of(&fetch.args), strings(&["text:id-1"]));
        }
        other => panic!("unexpected {:?}", other),
    }
}

#[test]
fn mutation_create_generates_valid_ids() {
    let a = plan_item_mutation("email", "create", None, &[]).unwrap();
    let b = plan_item_mutation("email", "create", None, &[]).unwrap();
    let (ida, idb) = match (a, b) {
        (ItemMutation::Create { id: x, .. }, ItemMutation::Create { id: y, .. }) => (x, y),
        _ => panic!("expected creations"),
    };
    assert_eq!(ida.len(), 36);
    assert!(validate_item_id(&ida).is_ok());
    assert_ne!(ida, idb);
}

#[test]
fn mutation_update_and_delete() {
    let fields = strings(&["subject"]);
    match plan_item_mutation("email", "update", Some("abc"), &fields).unwrap() {
        ItemMutation::Update { id, statement } => {
            assert_eq!(id, "abc");
            assert_eq!(statement.sql, "UPDATE email_items SET subject = ? WHERE id = ?");
            assert_eq!(fields_of(&statement.args), strings(&["field:0", "text:abc"]));
        }
        other => panic!("unexpected {:?}", other),
    }
    match plan_item_mutation("email", "delete", Some("abc"), &[]).unwrap() {
        ItemMutation::Delete { id, statement } => {
            assert_eq!(id, "abc");
            assert_eq!(statement.sql, "DELETE FROM email_items WHERE id = ?");
            assert_eq!(fields_of(&statement.args), strings(&["text:abc"]));
        }
        other => panic!("unexpected {:?}", other),
    }
}

#[test]
fn mutation_errors() {
    assert_eq!(plan_item_mutation("email", "update", None, &[]).unwrap_err(), "Item ID required for update");
    assert_eq!(plan_item_mutation("email", "delete", None, &[]).unwrap_err(), "Item ID required for delete");
    assert_eq!(plan_item_mutation("email", "update", Some("a"), &[]).unwrap_err(), "No fields to update");
    assert_eq!(plan_item_mutation("email", "archive", None, &[]).unwrap_err(), "Unknown operation: archive");
    assert_eq!(
        plan_item_mutation("email", "delete", Some("a b"), &[]).unwrap_err(),
        "Item ID must contain only letters, digits, hyphens, and underscores"
    );
    assert_eq!(
        plan_item_mutation("e mail", "delete", Some("a"), &[]).unwrap_err(),
        "Plugin name must contain only lowercase letters, digits, and hyphens"
    );
    assert_eq!(
        plan_item_mutation("email", "create", None, &strings(&["bad-col"])).unwrap_err(),
        "Column name must contain only letters, digits, and underscores"
    );
}

fn col(name: &str, col_type: &str) -> PluginColumn {
    PluginColumn {
        name: name.into(),
        display: name.into(),
        col_type: col_type.into(),
        dtype: "text".into(),
        sortable: false,
    }
}

#[test]
fn prompt_column_choice() {
    let cols = vec![
        col("a", "secondary"),
        col("subject", "main"),
        col("other", "main"),
        col("b", "secondary"),
        col("c", "filterable"),
    ];
    let (main, secondary) = prompt_columns(&cols);
    assert_eq!(main.as_deref(), Some("subject"));
    assert_eq!(secondary, strings(&["a", "b"]));
    let (main, secondary) = prompt_columns(&[]);
    assert!(main.is_none());
    assert!(secondary.is_empty());
}

#[test]
fn system_prompt_text() {
    let p = build_classification_system_prompt("email", &strings(&["General", "Work"]));
    let expected = "You are a cognitive axis classifier for a plugin called 'email'.\n\
Your task is to classify items based on their content.\n\
\n\
COGNITIVE AXES (choose one):\n\
- require (needs immediate attention)\n\
- review (needs to be reviewed)\n\
- delegate (should be forwarded to someone else)\n\
- schedule (needs to be scheduled)\n\
- call (needs a phone call)\n\
- meeting (needs a meeting)\n\
- delete (can be deleted)\n\
\n\
CONTEXT AXES (choose one or 'General' if none applies):\n\
General\n\
Work\n\
\n\
Respond with ONLY the cognitive axis and context axis in this format:\n\
cognitive_axis: <axis>\n\
context_axis: <context>\n\
\n\
For example:\n\
cognitive_axis: review\n\
context_axis: Work";
    assert_eq!(p, expected);
}

fn field(name: &str, value: &str) -> ItemField {
    ItemField { name: name.into(), value: value.into() }
}

#[test]
fn user_prompt_text() {
    let item = vec![
        field("subject", "\"Hello\""),
        field("s1", "1"),
        field("s2", "null"),
        field("s6", "6"),
    ];
    let secondary = strings(&["s1", "missing", "s2", "s3", "s4", "s6"]);
    let p = build_user_prompt_for_item(&item, Some("subject"), &secondary);
    assert_eq!(p, "subject: \"Hello\"\ns1: 1\ns2: null");
    let p = build_user_prompt_for_item(&item, Some("nothing"), &[]);
    assert_eq!(p, "No content available for classification");
}

#[test]
fn ai_outcomes_and_summary() {
    let a = classify_item("1", Ok("cognitive_axis: Review\ncontext_axis: Work".to_string()));
    let b = classify_item("2", Err("Failed to call OpenAI: timeout".to_string()));
    match &a {
        ItemOutcome::Classified { id, cognitive_axis, context_axis } => {
            assert_eq!(id, "1");
            assert_eq!(cognitive_axis, "review");
            assert_eq!(context_axis.as_deref(), Some("Work"));
        }
        _ => panic!("expected a classification"),
    }
    let s = summarize_ai_action(&[a.clone(), b.clone()]);
    assert_eq!((s.processed, s.updated, s.status.as_str()), (2, 1, "completed"));
    let s = summarize_ai_action(&[b]);
    assert_eq!((s.processed, s.updated, s.status.as_str()), (1, 0, "failed"));
    let s = summarize_ai_action(&[]);
    assert_eq!((s.processed, s.updated, s.status.as_str()), (0, 0, "failed"));
}

fn endpoint(id: i64, is_default: bool) -> LlmEndpoint {
    LlmEndpoint {
        id,
        name: format!("e{}", id),
        provider: "local".into(),
        endpoint_url: "http://localhost".into(),
        api_key: None,
        model: "m".into(),
        is_default,
    }
}

#[test]
fn endpoint_choice() {
    assert_eq!(choose_llm_endpoint(vec![endpoint(1, false), endpoint(2, true), endpoint(3, true)]).unwrap().id, 2);
    assert_eq!(choose_llm_endpoint(vec![endpoint(1, false), endpoint(2, false)]).unwrap().id, 1);
    assert_eq!(
        choose_llm_endpoint(vec![]).unwrap_err(),
        "No LLM endpoint configured. Please add an LLM endpoint in settings."
    );
}

#[test]
fn column_summaries() {
    let cols = parse_column_summary(Some("subject:Subject:main:text;bad:entry;a:b:c:d:e;x::y:z"));
    assert_eq!(cols.len(), 2);
    assert_eq!(
        (cols[0].name.as_str(), cols[0].display.as_str(), cols[0].col_type.as_str(), cols[0].dtype.as_str()),
        ("subject", "Subject", "main", "text")
    );
    assert_eq!(
        (cols[1].name.as_str(), cols[1].display.as_str(), cols[1].col_type.as_str(), cols[1].dtype.as_str()),
        ("x", "", "y", "z")
    );
    assert!(parse_column_summary(None).is_empty());
    assert!(parse_column_summary(Some("")).is_empty());
}

#[test]
fn settings_updates() {
    let q = plan_context_axis_update(7, Some("Work".into()), None, Some("w".into()), None).unwrap();
    assert_eq!(q.sql, "UPDATE context_axis SET name = ?, icon = ? WHERE id = ?");
    assert_eq!(fields_of(&q.args), strings(&["text:Work", "text:w", "int:7"]));
    assert_eq!(plan_context_axis_update(7, None, None, None, None).unwrap_err(), "No fields to update");

    let u = plan_llm_endpoint_update(3, None, Some("openai".into()), None, None, Some("gpt".into()), Some(true))
        .unwrap();
    assert!(u.clear_default);
    assert_eq!(u.statement.sql, "UPDATE llm_endpoints SET provider = ?, model = ?, is_default = ? WHERE id = ?");
    assert_eq!(fields_of(&u.statement.args), strings(&["text:openai", "text:gpt", "int:1", "int:3"]));
    let u = plan_llm_endpoint_update(3, None, None, None, None, None, Some(false)).unwrap();
    assert!(!u.clear_default);
    assert_eq!(fields_of(&u.statement.args), strings(&["int:0", "int:3"]));
    assert_eq!(
        plan_llm_endpoint_update(3, None, None, None, None, None, None).unwrap_err(),
        "No fields to update"
    );
}

fn marks(sql: &str) -> usize {
    sql.chars().filter(|c| *c == '?').count()
}

#[test]
fn statements_bind_one_argument_per_mark() {
    let keys = strings(&["a", "b", "c"]);
    let q = build_items_query("notes", None, Some(&keys), Some("a"), Some("asc"), Some(3), Some(4)).unwrap();
    assert_eq!(marks(&q.sql), q.args.len());
    assert_eq!(q.args.len(), 3);

    let fields = strings(&["title", "body"]);
    match plan_item_mutation_with_id("notes", "create", None, &fields, "id-1").unwrap() {
        ItemMutation::Create { insert, fetch, .. } => {
            assert_eq!(marks(&insert.sql), insert.args.len());
            assert_eq!(insert.args.len(), 3);
            assert_eq!(marks(&fetch.sql), fetch.args.len());
        }
        _ => panic!("expected a create"),
    }
    match plan_item_mutation_with_id("notes", "update", Some("id-1"), &fields, "").unwrap() {
        ItemMutation::Update { statement, .. } => {
            assert_eq!(marks(&statement.sql), statement.args.len());
            assert_eq!(statement.args.len(), 3);
        }
        _ => panic!("expected an update"),
    }
    let u = plan_llm_endpoint_update(4, None, Some("openai".to_string()), None, None, Some("m".to_string()), Some(true))
        .unwrap();
    assert_eq!(marks(&u.statement.sql), u.statement.args.len());
    assert_eq!(u.statement.args.len(), 4);
    let c = plan_context_axis_update(2, Some("Home".to_string()), None, None, Some("#fff".to_string())).unwrap();
    assert_eq!(marks(&c.sql), c.args.len());
    let (first, second) = classification_statements("notes_items", "id-1", "Do", Some("Home"));
    assert_eq!(marks(&first.sql), first.args.len());
    let second = second.unwrap();
    assert_eq!(marks(&second.sql), second.args.len());
    let f = item_fetch_statement("notes_items", "id-1");
    assert_eq!(marks(&f.sql), f.args.len());
}
