use unblock_mcp::args::{
    args_error, build_hint_index, hint_index_of, discriminant_of, duplicate_key_error, field_clauses,
    field_from_serde_message,
    indeterminate_frame_error, kind_from_serde_message, nested_container, resolve,
    unscanned_frame_error,
};
use unblock_mcp::error::{ContextValue, ErrorCode};
use unblock_mcp::json::JsonValue;

fn s(v: &str) -> JsonValue {
    JsonValue::Str(v.to_string())
}

fn obj(members: Vec<(&str, JsonValue)>) -> JsonValue {
    JsonValue::Object(members.into_iter().map(|(k, v)| (k.to_string(), v)).collect())
}

fn members(v: &JsonValue) -> &Vec<(String, JsonValue)> {
    match v {
        JsonValue::Object(m) => m,
        _ => panic!("not an object"),
    }
}

#[test]
fn field_is_extracted_from_the_serde_message() {
    assert_eq!(
        field_from_serde_message("unknown field `bodyy`, expected one of `a`, `b`").as_deref(),
        Some("bodyy")
    );
    assert_eq!(
        field_from_serde_message("missing field `body`").as_deref(),
        Some("body")
    );
    assert_eq!(field_from_serde_message("invalid type: integer"), None);
}

#[test]
fn a_field_named_after_invalid_type_is_extracted_by_the_bare_prefix() {
    assert_eq!(
        field_from_serde_message("invalid type: string, at field `limit`").as_deref(),
        Some("limit")
    );
    assert_eq!(field_from_serde_message("unknown field ``"), None);
}

#[test]
fn serde_messages_are_classified_by_their_prefix() {
    assert_eq!(kind_from_serde_message("unknown field `x`"), "unknown_field");
    assert_eq!(kind_from_serde_message("missing field `x`"), "missing_field");
    assert_eq!(kind_from_serde_message("invalid type: integer"), "type_mismatch");
    assert_eq!(kind_from_serde_message("invalid value: x"), "type_mismatch");
    assert_eq!(kind_from_serde_message("EOF while parsing"), "malformed_arguments");
}

/// Parse the NESTED clauses out of a rendered hint (each "nested … accepts: …" tail),
/// returning `(container name + suffix, fields)`.
fn nested_clauses(hint: &str) -> Vec<(String, Vec<String>)> {
    hint.split("; nested `")
        .skip(1)
        .filter_map(|clause| {
            let (name, rest) = clause.split_once("` accepts: ")?;
            let fields = rest
                .split(';')
                .next()
                .unwrap_or_default()
                .split(", ")
                .map(str::trim)
                .filter(|s| !s.is_empty())
                .map(str::to_string)
                .collect::<Vec<_>>();
            Some((name.to_string(), fields))
        })
        .collect()
}

#[test]
fn the_nested_clause_parser_reads_what_field_clauses_renders() {
    let clauses = nested_clauses(
        "for `action` = `create`, accepted fields: action, deps; \
         nested `deps[]` accepts: issue_id, metadata; nested `x` accepts: alpha",
    );
    assert_eq!(
        clauses,
        vec![
            (
                "deps[]".to_string(),
                vec!["issue_id".to_string(), "metadata".to_string()]
            ),
            ("x".to_string(), vec!["alpha".to_string()]),
        ]
    );
    assert!(nested_clauses("accepted fields: a, b").is_empty());
}

#[test]
fn the_nested_clause_parser_reads_the_library_rendering() {
    let props = obj(vec![
        ("action", obj(vec![("const", s("create"))])),
        (
            "deps",
            obj(vec![(
                "items",
                obj(vec![("properties", obj(vec![("issue_id", obj(vec![])), ("metadata", obj(vec![]))]))]),
            )]),
        ),
    ]);
    let text = field_clauses(members(&props), None);
    assert_eq!(
        text,
        "accepted fields: action, deps; nested `deps[]` accepts: issue_id, metadata"
    );
    assert_eq!(
        nested_clauses(&text),
        vec![(
            "deps[]".to_string(),
            vec!["issue_id".to_string(), "metadata".to_string()]
        )]
    );
}

#[test]
fn a_nested_container_behind_an_any_of_is_still_found() {
    let schema = obj(vec![(
        "anyOf",
        JsonValue::Array(vec![
            obj(vec![("$ref", s("#/$defs/Nested"))]),
            obj(vec![("type", s("null"))]),
        ]),
    )]);
    let defs = obj(vec![(
        "Nested",
        obj(vec![
            ("type", s("object")),
            ("properties", obj(vec![("alpha", obj(vec![])), ("beta", obj(vec![]))])),
        ]),
    )]);
    let (is_array, props) =
        nested_container(&schema, Some(members(&defs))).expect("the anyOf alternative is a container");
    assert!(!is_array);
    let keys: Vec<&str> = props.iter().map(|(k, _)| k.as_str()).collect();
    assert_eq!(keys, vec!["alpha", "beta"]);
}

#[test]
fn the_discriminant_must_be_agreed_by_every_arm() {
    let arms = vec![
        obj(vec![(
            "properties",
            obj(vec![
                ("local", obj(vec![("const", s("only-here"))])),
                ("action", obj(vec![("const", s("a"))])),
            ]),
        )]),
        obj(vec![("properties", obj(vec![("action", obj(vec![("const", s("b"))]))]))]),
    ];
    assert_eq!(discriminant_of(&arms).as_deref(), Some("action"));

    let no_agreement = vec![
        obj(vec![("properties", obj(vec![("x", obj(vec![("const", s("a"))]))]))]),
        obj(vec![("properties", obj(vec![("y", obj(vec![("const", s("b"))]))]))]),
    ];
    assert_eq!(discriminant_of(&no_agreement), None);
}

#[test]
fn a_ref_chain_is_followed_at_most_eight_hops() {
    let mut defs = Vec::new();
    for i in 0..10 {
        defs.push((
            format!("D{i}"),
            obj(vec![("$ref", s(&format!("#/$defs/D{}", i + 1)))]),
        ));
    }
    defs.push(("D10".to_string(), obj(vec![("properties", obj(vec![]))])));
    let start = obj(vec![("$ref", s("#/$defs/D0"))]);
    let end = resolve(&start, Some(&defs));
    match end {
        JsonValue::Object(m) => {
            assert_eq!(m[0].0, "$ref");
            assert!(matches!(&m[0].1, JsonValue::Str(t) if t == "#/$defs/D8"));
        },
        _ => panic!("expected an object"),
    }
}

fn tagged_schema() -> JsonValue {
    obj(vec![(
        "oneOf",
        JsonValue::Array(vec![
            obj(vec![(
                "properties",
                obj(vec![("action", obj(vec![("const", s("show"))])), ("id", obj(vec![]))]),
            )]),
            obj(vec![(
                "properties",
                obj(vec![
                    ("action", obj(vec![("const", s("close"))])),
                    ("id", obj(vec![])),
                    ("reason", obj(vec![])),
                ]),
            )]),
        ]),
    )])
}

#[test]
fn the_matched_arm_hint_lists_that_arm_only() {
    let index = build_hint_index(&tagged_schema());
    assert_eq!(index.tag.as_deref(), Some("action"));
    let raw = obj(vec![("action", s("show")), ("junk", s("x"))]);
    assert_eq!(index.hint_for(&raw), "for `action` = `show`, accepted fields: action, id");
    let raw = obj(vec![("action", s("close"))]);
    assert_eq!(
        index.hint_for(&raw),
        "for `action` = `close`, accepted fields: action, id, reason"
    );
}

#[test]
fn a_missing_or_unknown_tag_lists_the_accepted_tag_values_sorted() {
    let index = build_hint_index(&tagged_schema());
    assert_eq!(index.fallback, "`action` must be one of: close, show");
    assert_eq!(index.hint_for(&obj(vec![])), "`action` must be one of: close, show");
    assert_eq!(
        index.hint_for(&obj(vec![("action", s("bogus"))])),
        "`action` must be one of: close, show"
    );
    assert_eq!(
        index.hint_for(&obj(vec![("action", JsonValue::Bool(true))])),
        "`action` must be one of: close, show"
    );
}

#[test]
fn a_plain_object_input_lists_its_fields() {
    let schema = obj(vec![("properties", obj(vec![("a", obj(vec![])), ("b", obj(vec![]))]))]);
    let index = build_hint_index(&schema);
    assert!(index.tag.is_none());
    assert_eq!(index.fallback, "accepted fields: a, b");
    let none = build_hint_index(&obj(vec![]));
    assert_eq!(none.fallback, "this tool takes no arguments");
}

#[test]
fn an_untagged_union_enumerates_nothing() {
    let schema = obj(vec![(
        "oneOf",
        JsonValue::Array(vec![
            obj(vec![("properties", obj(vec![("x", obj(vec![("const", s("a"))]))]))]),
            obj(vec![("properties", obj(vec![("y", obj(vec![("const", s("b"))]))]))]),
        ]),
    )]);
    let index = build_hint_index(&schema);
    assert!(index.tag.is_none());
    assert!(index.entries.is_empty());
    assert_eq!(index.fallback, "check the argument names against the tool schema");
}

#[test]
fn an_unscannable_frame_is_refused_as_a_validation_failure() {
    let e = indeterminate_frame_error();
    assert_eq!(e.code, ErrorCode::ValidationFailed);
    assert!(e.retryable);
    assert_eq!(e.message, "tool arguments could not be unambiguously scanned; refusing to execute");
    assert!(e.hint.as_deref().is_some_and(|h| h.contains("Send a well-formed request.")));
    assert_eq!(e.context.len(), 1);
    assert_eq!(e.context[0].key, "kind");
    assert_eq!(e.context[0].value, ContextValue::Text("indeterminate_frame".to_owned()));
}

#[test]
fn an_unscanned_frame_is_refused_as_a_server_fault() {
    let e = unscanned_frame_error();
    assert_eq!(e.code, ErrorCode::InternalError);
    assert!(!e.retryable);
    assert_eq!(e.message, "tool arguments were not scanned for wire ambiguity; refusing to execute");
    assert!(e.hint.as_deref().is_some_and(|h| h.starts_with("this is a SERVER-side wiring fault")));
    assert_eq!(e.context[0].value, ContextValue::Text("unscanned_frame".to_owned()));
}

fn ctx(e: &unblock_mcp::error::StructuredError, key: &str) -> Option<String> {
    match e.context_value(key) {
        Some(ContextValue::Text(t)) => Some(t.clone()),
        _ => None,
    }
}

#[test]
fn args_error_is_a_retryable_validation_failure_with_a_hint() {
    let err = serde_json::from_str::<std::collections::HashMap<String, u8>>("{\"a\":\"x\"}")
        .expect_err("type mismatch");
    let structured = args_error(&err.to_string(), "a, b");
    assert_eq!(structured.code, ErrorCode::ValidationFailed);
    assert!(structured.retryable, "VALIDATION_FAILED is retryable");
    assert!(structured.hint.as_deref().is_some_and(|h| h.contains("a, b")));
    assert!(structured.message.starts_with("invalid tool arguments: invalid type"));
    assert_eq!(ctx(&structured, "kind").as_deref(), Some("type_mismatch"));
}

#[test]
fn echoed_text_is_clipped_before_it_reaches_the_message() {
    let long_key = "z".repeat(4000);
    let raw = format!("unknown field `{long_key}`, expected `issue_id`");
    let structured = args_error(&raw, "issue_id");
    assert!(structured.message.chars().count() <= 80 + 64, "{}", structured.message.len());
    assert!(structured.message.contains("…[truncated]"));
    let field = ctx(&structured, "field").expect("field");
    assert!(field.chars().count() <= 80 + "…[truncated]".chars().count());
    assert_eq!(ctx(&structured, "kind").as_deref(), Some("unknown_field"));
}

#[test]
fn a_duplicate_key_is_refused_naming_the_key_and_its_path() {
    let e = duplicate_key_error("title", "/arguments");
    assert_eq!(e.code, ErrorCode::ValidationFailed);
    assert_eq!(e.message, "invalid tool arguments: duplicate JSON key `title` in the request `params`");
    assert!(e.hint.as_deref().is_some_and(|h| h.starts_with("a JSON object key may appear at most once; `title`")));
    assert_eq!(ctx(&e, "kind").as_deref(), Some("duplicate_key"));
    assert_eq!(ctx(&e, "field").as_deref(), Some("title"));
    assert_eq!(ctx(&e, "path").as_deref(), Some("/arguments"));
}

#[test]
fn an_index_is_built_for_a_schema_whose_searches_end() {
    let index = hint_index_of(&tagged_schema()).expect("acyclic schema");
    let built = build_hint_index(&tagged_schema());
    assert_eq!(index.fallback, built.fallback);
    assert_eq!(index.entries, built.entries);
}

#[test]
fn no_index_is_built_for_definitions_that_refer_to_each_other_in_a_cycle() {
    let loop_def = obj(vec![("anyOf", JsonValue::Array(vec![obj(vec![("$ref", s("#/$defs/Loop"))])]))]);
    let schema = obj(vec![
        ("properties", obj(vec![("x", obj(vec![("$ref", s("#/$defs/Loop"))]))])),
        ("$defs", obj(vec![("Loop", loop_def)])),
    ]);
    assert!(hint_index_of(&schema).is_none());
}

/// The published input schema of a union tool: one `oneOf` arm per variant, each naming its
/// variant in the `tag` property's `const`, beside the variant's own fields.
fn union_schema(tag: &str, arms: &[(&str, &[&str])]) -> JsonValue {
    let arms = arms
        .iter()
        .map(|(value, fields)| {
            let mut props = vec![(tag, obj(vec![("type", s("string")), ("const", s(value))]))];
            for f in fields.iter() {
                props.push((*f, obj(vec![("type", s("string"))])));
            }
            obj(vec![
                ("type", s("object")),
                ("properties", obj(props)),
                ("required", JsonValue::Array(vec![s(tag)])),
            ])
        })
        .collect();
    obj(vec![("type", s("object")), ("oneOf", JsonValue::Array(arms))])
}

fn shipped_tool_inputs() -> Vec<(&'static str, JsonValue)> {
    vec![
        (
            "issue",
            union_schema(
                "action",
                &[
                    ("create", &["title", "description"]),
                    ("create_bulk", &["markdown"]),
                    ("show", &["id"]),
                    ("update", &["ids"]),
                    ("close", &["id", "reason"]),
                    ("reopen", &["id"]),
                    ("delete", &["ids", "mode"]),
                    ("restore", &["id"]),
                ],
            ),
        ),
        (
            "claim",
            obj(vec![
                ("type", s("object")),
                ("properties", obj(vec![("id", obj(vec![])), ("assignee", obj(vec![]))])),
            ]),
        ),
        ("defer", union_schema("action", &[("defer", &["id", "until"]), ("undefer", &["id"])])),
        (
            "query",
            union_schema(
                "kind",
                &[
                    ("list", &["status"]),
                    ("ready", &["status"]),
                    ("blocked", &["status"]),
                    ("search", &["query", "limit"]),
                    ("count", &["group_by"]),
                    ("stale", &["older_than"]),
                ],
            ),
        ),
        (
            "dep",
            union_schema(
                "action",
                &[
                    ("add", &["issue_id", "depends_on_id"]),
                    ("remove", &["issue_id", "depends_on_id"]),
                    ("list", &["id"]),
                    ("tree", &["id"]),
                    ("cycles", &["blocking_only"]),
                    ("graph", &[]),
                ],
            ),
        ),
        ("sync", union_schema("action", &[("import", &["path", "dry_run"]), ("export", &["path"])])),
        (
            "diagnostics",
            union_schema(
                "kind",
                &[
                    ("stats", &[]),
                    ("info", &[]),
                    ("where", &[]),
                    ("version", &[]),
                    ("lint", &[]),
                    ("changelog", &["since"]),
                    ("orphans", &[]),
                    ("dangling", &[]),
                ],
            ),
        ),
        (
            "comment",
            union_schema(
                "action",
                &[
                    ("add", &["issue_id", "body"]),
                    ("list", &["issue_id"]),
                    ("update", &["id", "body"]),
                    ("delete", &["id"]),
                ],
            ),
        ),
    ]
}

#[test]
fn every_shipped_tool_input_has_a_selectable_discriminant() {
    for (tool, schema) in shipped_tool_inputs() {
        let index = hint_index_of(&schema).unwrap_or_else(|| panic!("{tool}: the schema's searches end"));
        if tool == "claim" {
            assert!(index.tag.is_none(), "claim is the non-enum outer");
            continue;
        }
        let tag = index.tag.as_deref().unwrap_or_else(|| panic!("{} lost its discriminant", tool));
        assert!(tag == "action" || tag == "kind", "{}: {tag}", tool);
        assert!(!index.entries.is_empty(), "{}", tool);
    }
}
