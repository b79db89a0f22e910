use saya_core::plugins::{
    is_code_file, scan_content, scan_for_network_calls, validate_manifest, FieldMapping, PluginColumn,
    PluginManifest, ProvidedAction, SourceFile,
};

fn column(name: &str, display: &str, col_type: &str, dtype: &str, sortable: bool) -> PluginColumn {
    PluginColumn {
        name: name.into(),
        display: display.into(),
        col_type: col_type.into(),
        dtype: dtype.into(),
        sortable,
    }
}

fn axis_columns() -> Vec<PluginColumn> {
    vec![
        column("cognitive_axis", "Axis", "filterable", "enum", true),
        column("context_axis", "Context", "filterable", "text", false),
    ]
}

/// A file as the directory walk hands it over: the file name is what
/// `Path::file_name` gives on the running platform.
fn source(path: &str, content: &str) -> SourceFile {
    let file_name = std::path::Path::new(path).file_name().map(|n| n.to_string_lossy().to_string()).unwrap_or_default();
    SourceFile { path: path.into(), file_name, content: content.into() }
}

// --- Manifest validation ---

#[test]
fn test_validate_valid_manifest() {
    let manifest = PluginManifest {
        name: "email".into(),
        display_name: "Email".into(),
        icon: None,
        columns: vec![
            PluginColumn {
                name: "cognitive_axis".into(),
                display: "Axis".into(),
                col_type: "filterable".into(),
                dtype: "enum".into(),
                sortable: true,
            },
            PluginColumn {
                name: "context_axis".into(),
                display: "Context".into(),
                col_type: "filterable".into(),
                dtype: "text".into(),
                sortable: false,
            },
        ],
        ai_actions: vec![],
        provides_actions: vec![],
    };
    let errors = validate_manifest(&manifest, &[]);
    assert!(errors.is_empty());
}

#[test]
fn test_validate_missing_name() {
    let manifest = PluginManifest {
        name: "".into(),
        display_name: "Email".into(),
        icon: None,
        columns: vec![],
        ai_actions: vec![],
        provides_actions: vec![],
    };
    let errors = validate_manifest(&manifest, &[]);
    assert!(errors.iter().any(|e| e.contains("name is required")));
}

#[test]
fn test_validate_missing_display_name() {
    let manifest = PluginManifest {
        name: "email".into(),
        display_name: "".into(),
        icon: None,
        columns: vec![],
        ai_actions: vec![],
        provides_actions: vec![],
    };
    let errors = validate_manifest(&manifest, &[]);
    assert!(errors.iter().any(|e| e.contains("display_name is required")));
}

#[test]
fn test_validate_missing_cognitive_axis_column() {
    let manifest = PluginManifest {
        name: "email".into(),
        display_name: "Email".into(),
        icon: None,
        columns: vec![PluginColumn {
            name: "context_axis".into(),
            display: "Context".into(),
            col_type: "filterable".into(),
            dtype: "text".into(),
            sortable: false,
        }],
        ai_actions: vec![],
        provides_actions: vec![],
    };
    let errors = validate_manifest(&manifest, &[]);
    assert!(errors.iter().any(|e| e.contains("cognitive_axis")));
}

#[test]
fn test_validate_missing_context_axis_column() {
    let manifest = PluginManifest {
        name: "email".into(),
        display_name: "Email".into(),
        icon: None,
        columns: vec![PluginColumn {
            name: "cognitive_axis".into(),
            display: "Axis".into(),
            col_type: "filterable".into(),
            dtype: "enum".into(),
            sortable: true,
        }],
        ai_actions: vec![],
        provides_actions: vec![],
    };
    let errors = validate_manifest(&manifest, &[]);
    assert!(errors.iter().any(|e| e.contains("context_axis")));
}

#[test]
fn test_validate_action_targeting_missing_plugin() {
    let manifest = PluginManifest {
        name: "tasks".into(),
        display_name: "Tasks".into(),
        icon: None,
        columns: vec![
            PluginColumn {
                name: "cognitive_axis".into(),
                display: "Axis".into(),
                col_type: "filterable".into(),
                dtype: "enum".into(),
                sortable: true,
            },
            PluginColumn {
                name: "context_axis".into(),
                display: "Context".into(),
                col_type: "filterable".into(),
                dtype: "text".into(),
                sortable: false,
            },
        ],
        ai_actions: vec![],
        provides_actions: vec![ProvidedAction {
            label: "From Email".into(),
            target_types: vec!["email".into()],
            handler: "create_from_email".into(),
            field_mapping: None,
        }],
    };
    let errors = validate_manifest(&manifest, &[]);
    assert!(errors.iter().any(|e| e.contains("not registered")));
}

#[test]
fn test_validate_action_targeting_self_is_ok() {
    let manifest = PluginManifest {
        name: "email".into(),
        display_name: "Email".into(),
        icon: None,
        columns: vec![
            PluginColumn {
                name: "cognitive_axis".into(),
                display: "Axis".into(),
                col_type: "filterable".into(),
                dtype: "enum".into(),
                sortable: true,
            },
            PluginColumn {
                name: "context_axis".into(),
                display: "Context".into(),
                col_type: "filterable".into(),
                dtype: "text".into(),
                sortable: false,
            },
        ],
        ai_actions: vec![],
        provides_actions: vec![ProvidedAction {
            label: "Archive".into(),
            target_types: vec!["email".into()],
            handler: "archive".into(),
            field_mapping: None,
        }],
    };
    let errors = validate_manifest(&manifest, &[]);
    assert!(!errors.iter().any(|e| e.contains("not registered")));
}

#[test]
fn validate_reports_every_error_in_order() {
    let manifest = PluginManifest {
        name: "".into(),
        display_name: "".into(),
        icon: None,
        columns: vec![],
        ai_actions: vec![],
        provides_actions: vec![],
    };
    let errors = validate_manifest(&manifest, &[]);
    assert_eq!(
        errors,
        vec![
            "Plugin name is required.".to_string(),
            "Plugin display_name is required.".to_string(),
            "Plugin '' is missing the required 'cognitive_axis' column.".to_string(),
            "Plugin '' is missing the required 'context_axis' column.".to_string(),
        ]
    );
}

#[test]
fn validate_field_mapping_errors() {
    let manifest = PluginManifest {
        name: "tasks".into(),
        display_name: "Tasks".into(),
        icon: None,
        columns: axis_columns(),
        ai_actions: vec![],
        provides_actions: vec![ProvidedAction {
            label: "From Email".into(),
            target_types: vec!["email".into(), "tasks".into()],
            handler: "create_from_email".into(),
            field_mapping: Some(FieldMapping {
                action_title: "subject".into(),
                cognitive_axis: "source.cognitive_axis".into(),
                context_axis: "context_axis".into(),
                source_type: "mail".into(),
                source_id: "id".into(),
            }),
        }],
    };
    let errors = validate_manifest(&manifest, &[]);
    assert_eq!(
        errors,
        vec![
            "Plugin 'tasks' declares actions for 'email' which is not registered.".to_string(),
            "Plugin 'tasks' field_mapping references missing plugin 'email'.".to_string(),
            "Plugin 'tasks' field_mapping references missing source plugin 'mail'.".to_string(),
        ]
    );
    // Registering the targets clears every error.
    let registered = vec!["email".to_string(), "mail".to_string()];
    assert!(validate_manifest(&manifest, &registered).is_empty());
}

#[test]
fn validate_mapping_without_source_prefix_needs_no_source() {
    let manifest = PluginManifest {
        name: "tasks".into(),
        display_name: "Tasks".into(),
        icon: None,
        columns: axis_columns(),
        ai_actions: vec![],
        provides_actions: vec![ProvidedAction {
            label: "Self".into(),
            target_types: vec!["tasks".into()],
            handler: "h".into(),
            field_mapping: Some(FieldMapping {
                action_title: "t".into(),
                cognitive_axis: "review".into(),
                context_axis: "context_axis".into(),
                source_type: "unknown".into(),
                source_id: "id".into(),
            }),
        }],
    };
    assert!(validate_manifest(&manifest, &[]).is_empty());
}

// --- Network isolation scanner ---

#[test]
fn test_scan_clean_plugin() {
    let files = vec![source(
        "ui/index.html",
        "<html><body><h1>Hello</h1><script>console.log('ok')</script></body></html>",
    )];
    let violations = scan_for_network_calls(&files);
    assert!(violations.is_empty());
}

#[test]
fn test_scan_detects_fetch() {
    let files = vec![source("ui/app.js", "fetch('https://api.example.com/data')")];
    let violations = scan_for_network_calls(&files);
    assert_eq!(violations.len(), 1);
    assert!(violations[0].contains("fetch()"));
}

#[test]
fn test_scan_detects_xhr() {
    let files = vec![source("ui/app.js", "var xhr = new XMLHttpRequest();")];
    let violations = scan_for_network_calls(&files);
    assert_eq!(violations.len(), 1);
    assert!(violations[0].contains("XMLHttpRequest"));
}

#[test]
fn test_scan_detects_axios() {
    let files = vec![source("ui/app.js", "axios.get('/api/data')")];
    let violations = scan_for_network_calls(&files);
    assert_eq!(violations.len(), 1);
    assert!(violations[0].contains("axios"));
}

#[test]
fn test_scan_nonexistent_dir() {
    // A directory that does not exist yields no files to scan.
    let violations = scan_for_network_calls(&[]);
    assert!(violations.is_empty());
}

#[test]
fn test_scan_only_checks_code_files() {
    let files = vec![source("ui/data.json", r#"{ "fetch": "this is just json" }"#)];
    let violations = scan_for_network_calls(&files);
    assert!(violations.is_empty());
}

#[test]
fn test_scan_nested_directories() {
    let files = vec![source("ui/assets/api.js", "fetch('https://evil.com')")];
    let violations = scan_for_network_calls(&files);
    assert_eq!(violations.len(), 1);
}

#[test]
fn test_scan_allows_saya_protocol() {
    let files = vec![source("ui/app.js", "fetch('saya://api/items')")];
    let violations = scan_for_network_calls(&files);
    assert!(violations.is_empty());
}

#[test]
fn scan_messages_name_the_file() {
    let v = scan_content("ui/app.js", "axios(x); new XMLHttpRequest(); fetch(y)");
    assert_eq!(
        v,
        vec![
            "ui/app.js: contains fetch() call — plugins must not make direct network requests".to_string(),
            "ui/app.js: contains XMLHttpRequest — plugins must not make direct network requests".to_string(),
            "ui/app.js: contains axios usage — plugins must not make direct network requests".to_string(),
        ]
    );
}

#[test]
fn scan_keeps_file_order() {
    let files = vec![
        source("ui/b.ts", "XMLHttpRequest"),
        source("ui/readme.md", "fetch("),
        source("ui/a.tsx", "fetch("),
    ];
    let v = scan_for_network_calls(&files);
    assert_eq!(v.len(), 2);
    assert!(v[0].starts_with("ui/b.ts"));
    assert!(v[1].starts_with("ui/a.tsx"));
}

#[test]
fn code_file_extensions() {
    for p in ["a.js", "a.html", "a.htm", "a.ts", "a.jsx", "a.tsx", "b.x.js", "x\\.js"] {
        assert!(is_code_file(p), "{}", p);
    }
    for p in ["a.json", ".js", "js", "a.JS", "a.", "readme", ".hidden"] {
        assert!(!is_code_file(p), "{}", p);
    }
}

#[test]
fn registering_more_plugins_only_removes_errors() {
    let manifest = PluginManifest {
        name: "tasks".into(),
        display_name: "".into(),
        icon: None,
        columns: axis_columns(),
        ai_actions: vec![],
        provides_actions: vec![ProvidedAction {
            label: "From mail".into(),
            target_types: vec!["email".into(), "notes".into()],
            handler: "h".into(),
            field_mapping: Some(FieldMapping {
                action_title: "t".into(),
                cognitive_axis: "source.axis".into(),
                context_axis: "c".into(),
                source_type: "email".into(),
                source_id: "id".into(),
            }),
        }],
    };
    let few = validate_manifest(&manifest, &[]);
    let more = validate_manifest(&manifest, &["email".to_string()]);
    assert_eq!(few.len(), 6);
    assert_eq!(
        more,
        vec![
            "Plugin display_name is required.".to_string(),
            "Plugin 'tasks' declares actions for 'notes' which is not registered.".to_string(),
            "Plugin 'tasks' field_mapping references missing plugin 'notes'.".to_string(),
        ]
    );
    // Each remaining error occurs among the earlier ones, in the same order.
    let mut k = 0;
    for e in &more {
        while few[k] != *e {
            k += 1;
        }
        k += 1;
    }
}

#[test]
fn backslash_is_part_of_a_unix_file_name() {
    // On Unix-like systems `\` is an ordinary character: the file name of
    // `ui/x\.js` is `x\.js`, whose extension is `js`.
    let files = vec![SourceFile {
        path: "ui/x\\.js".into(),
        file_name: "x\\.js".into(),
        content: "fetch('https://evil.com')".into(),
    }];
    let violations = scan_for_network_calls(&files);
    assert_eq!(
        violations,
        vec!["ui/x\\.js: contains fetch() call — plugins must not make direct network requests".to_string()]
    );
}
