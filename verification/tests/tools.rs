use unblock_mcp::error::{ContextValue, ErrorCode, StructuredError};
use unblock_mcp::json::JsonValue;
use unblock_mcp::model::{Priority, Timestamp};
use unblock_mcp::quota::{enforce_batch_quota, enforce_quota, Quotas};
use unblock_mcp::tools::{
    create_bulk_records, default_true, issue_not_found, parse_priority, Attribution, DeleteMode,
    DeleteModeInput, DiagnosticKind, DiagnosticsInput,
};

fn roomy() -> Quotas {
    Quotas {
        max_request_bytes: 1 << 20,
        max_array_len: 1000,
        max_string_len: 1 << 16,
        max_batch: 100,
        max_concurrent_requests: 8,
    }
}

fn ctx_text(err: &StructuredError, key: &str) -> Option<String> {
    match err.context_value(key) {
        Some(ContextValue::Text(t)) => Some(t.clone()),
        _ => None,
    }
}

fn ctx_num(err: &StructuredError, key: &str) -> Option<u64> {
    match err.context_value(key) {
        Some(ContextValue::Number(n)) => Some(*n),
        _ => None,
    }
}

fn to_json_value(v: &serde_json::Value) -> JsonValue {
    match v {
        serde_json::Value::Null => JsonValue::Null,
        serde_json::Value::Bool(b) => JsonValue::Bool(*b),
        serde_json::Value::Number(n) => JsonValue::Number(n.to_string()),
        serde_json::Value::String(s) => JsonValue::Str(s.clone()),
        serde_json::Value::Array(items) => JsonValue::Array(items.iter().map(to_json_value).collect()),
        serde_json::Value::Object(map) => {
            JsonValue::Object(map.iter().map(|(k, v)| (k.clone(), to_json_value(v))).collect())
        }
    }
}

fn object(members: Vec<(&str, serde_json::Value)>) -> serde_json::Value {
    let mut map = serde_json::Map::new();
    for (k, v) in members {
        map.insert(k.to_owned(), v);
    }
    serde_json::Value::Object(map)
}

fn string(s: &str) -> serde_json::Value {
    serde_json::Value::String(s.to_owned())
}

fn check(args: &serde_json::Value, quotas: &Quotas) -> Result<(), StructuredError> {
    let len = serde_json::to_string(args).expect("serializable").len();
    enforce_quota(&to_json_value(args), len, quotas)
}

#[test]
fn attribution_default_is_all_none() {
    let a = Attribution::default();
    assert!(a.agent_name.is_none() && a.harness.is_none() && a.model.is_none());
}

#[test]
fn blocking_only_defaults_to_true() {
    assert!(default_true());
}

#[test]
fn diagnostics_inputs_map_to_their_kinds() {
    let since = Timestamp { secs: 1_700_000_000, nanos: 5 };
    assert_eq!(
        DiagnosticsInput::Changelog { since: Some(since) }.to_kind_and_since(),
        (DiagnosticKind::Changelog, Some(since))
    );
    assert_eq!(
        DiagnosticsInput::Changelog { since: None }.to_kind_and_since(),
        (DiagnosticKind::Changelog, None)
    );
    assert_eq!(DiagnosticsInput::Stats.to_kind_and_since(), (DiagnosticKind::Stats, None));
    assert_eq!(DiagnosticsInput::Orphans.to_kind_and_since(), (DiagnosticKind::Orphans, None));
    assert_eq!(DiagnosticsInput::Dangling.to_kind_and_since(), (DiagnosticKind::Dangling, None));
    assert_eq!(DiagnosticsInput::Where.to_kind_and_since(), (DiagnosticKind::Where, None));
}

#[test]
fn delete_mode_defaults_to_tombstone_and_maps_one_to_one() {
    assert_eq!(DeleteModeInput::default(), DeleteModeInput::Tombstone);
    assert_eq!(DeleteModeInput::Tombstone.into_delete_mode(), DeleteMode::Tombstone);
    assert_eq!(DeleteModeInput::Cascade.into_delete_mode(), DeleteMode::Cascade);
    assert_eq!(DeleteModeInput::Hard.into_delete_mode(), DeleteMode::Hard);
    assert_eq!(DeleteModeInput::DryRun.into_delete_mode(), DeleteMode::DryRun);
}

#[test]
fn a_missing_issue_is_reported_with_its_id() {
    let e = issue_not_found("ub-42");
    assert_eq!(e.code, ErrorCode::IssueNotFound);
    assert_eq!(e.message, "issue not found: ub-42");
    assert_eq!(ctx_text(&e, "id").as_deref(), Some("ub-42"));
    assert!(!e.retryable);
}

#[test]
fn bulk_records_are_the_parsed_document() {
    let issues = create_bulk_records("## One\n### Type\ntask\n\n## Two\n", &roomy()).expect("ok");
    assert_eq!(issues.len(), 2);
    assert_eq!(issues[0].title, "One");
    assert_eq!(issues[0].issue_type.as_deref(), Some("task"));
    assert_eq!(issues[1].title, "Two");
}

#[test]
fn bulk_records_report_the_parse_error_before_the_batch_quota() {
    let quotas = Quotas { max_batch: 0, ..roomy() };
    let err = create_bulk_records("## One\n### Bogus\nx\n", &quotas).expect_err("bad section");
    assert_eq!(ctx_text(&err, "kind").as_deref(), Some("unknown_section"));
}

#[test]
fn bulk_records_over_the_batch_quota_are_refused() {
    let quotas = Quotas { max_batch: 1, ..roomy() };
    let err = create_bulk_records("## One\n\n## Two\n", &quotas).expect_err("over batch");
    assert_eq!(err.code, ErrorCode::ValidationFailed);
    assert_eq!(err.message, "batch exceeds the configured quota (2 > 1)");
    assert_eq!(ctx_text(&err, "kind").as_deref(), Some("batch"));
    assert_eq!(ctx_num(&err, "actual"), Some(2));
    assert_eq!(ctx_num(&err, "limit"), Some(1));
    assert_eq!(err.hint.as_deref(), Some("reduce the input size below the server quota and retry"));
}

#[test]
fn batch_quota_admits_exactly_the_limit() {
    let quotas = Quotas { max_batch: 3, ..roomy() };
    assert!(enforce_batch_quota(3, &quotas).is_ok());
    assert!(enforce_batch_quota(4, &quotas).is_err());
}

#[test]
fn enforce_quota_passes_small_input() {
    let args = object(vec![
        ("title", string("small")),
        ("labels", serde_json::Value::Array(vec![string("a"), string("b")])),
    ]);
    assert!(check(&args, &roomy()).is_ok());
}

#[test]
fn enforce_quota_rejects_over_length_array() {
    let quotas = Quotas { max_array_len: 2, ..roomy() };
    let args = object(vec![(
        "labels",
        serde_json::Value::Array(vec![string("a"), string("b"), string("c")]),
    )]);
    let err = check(&args, &quotas).expect_err("over array quota");
    assert_eq!(err.code, ErrorCode::ValidationFailed);
    assert_eq!(ctx_text(&err, "kind").as_deref(), Some("array"));
}

#[test]
fn enforce_quota_rejects_over_length_string() {
    let quotas = Quotas { max_string_len: 4, ..roomy() };
    let args = object(vec![("title", string("way too long"))]);
    let err = check(&args, &quotas).expect_err("over string quota");
    assert_eq!(ctx_text(&err, "kind").as_deref(), Some("string"));
    assert_eq!(ctx_num(&err, "actual"), Some(12));
    assert_eq!(ctx_num(&err, "limit"), Some(4));
}

#[test]
fn enforce_quota_rejects_over_request_bytes() {
    let quotas = Quotas { max_request_bytes: 8, ..roomy() };
    let args = object(vec![("title", string("this whole request is too big"))]);
    let err = check(&args, &quotas).expect_err("over request quota");
    assert_eq!(ctx_text(&err, "kind").as_deref(), Some("request"));
}

#[test]
fn string_quota_counts_utf8_bytes() {
    let quotas = Quotas { max_string_len: 4, ..roomy() };
    // Two characters, six bytes.
    let args = object(vec![("title", string("€€"))]);
    let err = check(&args, &quotas).expect_err("six bytes exceed four");
    assert_eq!(ctx_num(&err, "actual"), Some(6));
}

#[test]
fn the_first_breach_in_document_order_is_reported() {
    let quotas = Quotas { max_string_len: 3, max_array_len: 1, ..roomy() };
    let args = serde_json::Value::Array(vec![string("long string")]);
    let err = check(&args, &quotas).expect_err("string breach");
    assert_eq!(ctx_text(&err, "kind").as_deref(), Some("string"));
    let args = serde_json::Value::Array(vec![string("ok"), string("long string")]);
    let err = check(&args, &quotas).expect_err("array breach first");
    assert_eq!(ctx_text(&err, "kind").as_deref(), Some("array"));
}

#[test]
fn bulk_records_carry_the_parsed_priority() {
    let issues = create_bulk_records("## One\n### Priority\nP1\n\n## Two\n### Priority\n3\n\n## Three\n", &roomy())
        .expect("ok");
    assert_eq!(issues[0].priority, Some(Priority::P1));
    assert_eq!(issues[1].priority, Some(Priority::P3));
    assert_eq!(issues[2].priority, None);
}

#[test]
fn an_invalid_priority_refuses_the_document_naming_the_record() {
    let err = create_bulk_records("## One\n### Priority\n1\n\n## Two\n### Priority\nP9\n", &roomy())
        .expect_err("P9 is no priority");
    assert_eq!(err.code, ErrorCode::ValidationFailed);
    assert_eq!(err.message, "record 1 (Two): `### Priority` value \"P9\" rejected");
    assert_eq!(err.hint.as_deref(), Some("expected P0..P4 or 0..4"));
    assert_eq!(ctx_text(&err, "kind").as_deref(), Some("section_value"));
    assert_eq!(ctx_text(&err, "field").as_deref(), Some("markdown"));
    assert_eq!(ctx_num(&err, "index"), Some(1));
    assert_eq!(ctx_text(&err, "title").as_deref(), Some("Two"));
    assert_eq!(ctx_text(&err, "section").as_deref(), Some("Priority"));
    assert_eq!(ctx_text(&err, "value").as_deref(), Some("P9"));
}

#[test]
fn the_batch_quota_is_reported_before_an_invalid_priority() {
    let quotas = Quotas { max_batch: 1, ..roomy() };
    let err = create_bulk_records("## One\n### Priority\nhigh\n\n## Two\n", &quotas).expect_err("over batch");
    assert_eq!(ctx_text(&err, "kind").as_deref(), Some("batch"));
}

#[test]
fn any_issue_type_is_kept_as_written() {
    let issues = create_bulk_records("## One\n### Type\nSpike\n", &roomy()).expect("custom types are accepted");
    assert_eq!(issues[0].issue_type.as_deref(), Some("Spike"));
}

#[test]
fn priority_spellings_are_the_five_levels_with_or_without_p() {
    assert_eq!(parse_priority("P0"), Some(Priority::P0));
    assert_eq!(parse_priority("4"), Some(Priority::P4));
    assert_eq!(parse_priority("P5"), None);
    assert_eq!(parse_priority(""), None);
}
