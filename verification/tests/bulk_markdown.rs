use unblock_mcp::error::{ContextValue, ErrorCode, StructuredError};
use unblock_mcp::markdown::document::{collect_content_line, parse_bulk_markdown};
use unblock_mcp::markdown::parser::{ParsedIssue, Section, MAX_ECHOED_HEADER_CHARS};

fn parse(content: &str) -> Vec<ParsedIssue> {
    parse_bulk_markdown(content).expect("parse")
}

fn ctx_text(err: &StructuredError, key: &str) -> Option<String> {
    match err.context_value(key) {
        Some(ContextValue::Text(t)) => Some(t.clone()),
        _ => None,
    }
}

fn ctx_num(err: &StructuredError, key: &str) -> Option<u64> {
    match err.context_value(key) {
        Some(ContextValue::Number(n)) => Some(*n),
        _ => None,
    }
}

#[test]
fn parse_simple_issue() {
    let content = "## My First Issue\n### Parent\nproj-abc123\n\n### Description\nThis is the description.\n\n### Priority\n1\n\n### Type\nbug\n";
    let issues = parse(content);
    assert_eq!(issues.len(), 1);
    assert_eq!(issues[0].title, "My First Issue");
    assert_eq!(issues[0].parent.as_deref(), Some("proj-abc123"));
    assert_eq!(issues[0].description.as_deref(), Some("This is the description."));
    assert_eq!(issues[0].priority.as_deref(), Some("1"));
    assert_eq!(issues[0].issue_type.as_deref(), Some("bug"));
}

#[test]
fn parse_multiple_issues() {
    let content = "## Issue One\n### Type\ntask\n\n## Issue Two\n### Type\nfeature\n\n## Issue Three\n### Type\nbug\n";
    let issues = parse(content);
    assert_eq!(issues.len(), 3);
    assert_eq!(issues[0].title, "Issue One");
    assert_eq!(issues[1].title, "Issue Two");
    assert_eq!(issues[2].title, "Issue Three");
}

#[test]
fn implicit_description_quirk_first_line_only() {
    let content = "## Issue Title\nFirst line becomes description\nThis line is ignored\nAnd this one too\n\n### Priority\n2\n";
    let issues = parse(content);
    assert_eq!(issues[0].description.as_deref(), Some("First line becomes description"));
}

#[test]
fn explicit_description_overrides_implicit() {
    let content = "## Test Issue\nImplicit description line\n\n### Description\nExplicit description content\n";
    let issues = parse(content);
    assert_eq!(issues[0].description.as_deref(), Some("Explicit description content"));
}

#[test]
fn labels_comma_separated() {
    let issues = parse("## Test Issue\n### Labels\nbug, urgent, frontend\n");
    assert_eq!(issues[0].labels, vec!["bug", "urgent", "frontend"]);
}

#[test]
fn labels_whitespace_separated() {
    let issues = parse("## Test Issue\n### Labels\nbug urgent frontend\n");
    assert_eq!(issues[0].labels, vec!["bug", "urgent", "frontend"]);
}

#[test]
fn dependencies_parsing() {
    let issues = parse("## Test Issue\n### Dependencies\nblocks:bd-123, bd-456, related:bd-789\n");
    assert_eq!(issues[0].dependencies, vec!["blocks:bd-123", "bd-456", "related:bd-789"]);
}

#[test]
fn dependencies_bullets_and_checkboxes_stripped() {
    let content = "## Test Issue\n### Dependencies\n- bd-123\n- [ ] related:bd-456\n* external:github#123\n";
    let issues = parse(content);
    assert_eq!(issues[0].dependencies, vec!["bd-123", "related:bd-456", "external:github#123"]);
}

#[test]
fn dependencies_whitespace_typed_tokens() {
    let issues = parse(
        "## Test Issue\n### Dependencies\nblocks: bd-123 related:bd-456 external:github#123\n",
    );
    assert_eq!(
        issues[0].dependencies,
        vec!["blocks: bd-123", "related:bd-456", "external:github#123"]
    );
}

#[test]
fn non_bulleted_deps_split_on_whitespace() {
    let issues = parse("## Test Issue\n### Dependencies\nbd-123 bd-456\n");
    assert_eq!(issues[0].dependencies, vec!["bd-123", "bd-456"]);
}

#[test]
fn acceptance_criteria_alias() {
    let issues = parse("## Test Issue\n### Acceptance\n- [ ] First criterion\n- [ ] Second criterion\n");
    let ac = issues[0].acceptance_criteria.as_deref().expect("ac");
    assert!(ac.contains("First criterion"));
}

#[test]
fn case_insensitive_sections() {
    let content = "## Test Issue\n### PRIORITY\n1\n\n### description\nTest desc\n\n### TYPE\ntask\n";
    let issues = parse(content);
    assert_eq!(issues[0].priority.as_deref(), Some("1"));
    assert_eq!(issues[0].description.as_deref(), Some("Test desc"));
    assert_eq!(issues[0].issue_type.as_deref(), Some("task"));
}

#[test]
fn unknown_section_rejected() {
    let err = parse_bulk_markdown("## T\n### Unknown Section\nignored?\n\n### Description\nreal\n")
        .expect_err("an unrecognized `### ` section must reject the whole document");
    assert_eq!(err.code, ErrorCode::ValidationFailed);
    assert!(err.retryable, "VALIDATION_FAILED is retryable");
    assert_eq!(ctx_text(&err, "kind").as_deref(), Some("unknown_section"));
    assert_eq!(ctx_text(&err, "field").as_deref(), Some("markdown"));
    assert_eq!(ctx_text(&err, "section").as_deref(), Some("Unknown Section"));
    assert_eq!(ctx_num(&err, "line"), Some(2));
    let hint = err.hint.as_deref().expect("an enumerating hint");
    assert!(hint.contains("acceptance criteria"), "{hint}");
    assert!(hint.contains("#### "), "the H4 rule must be in the hint: {hint}");
}

fn populated(header: &str, i: &ParsedIssue) -> bool {
    match header {
        "ID" => i.stand_in_id.is_some(),
        "Parent" => i.parent.is_some(),
        "PRIORITY" => i.priority.is_some(),
        "Type" => i.issue_type.is_some(),
        "Description" => i.description.is_some(),
        "Design" => i.design.is_some(),
        "Acceptance Criteria" | "Acceptance" => i.acceptance_criteria.is_some(),
        "ASSIGNEE" => i.assignee.is_some(),
        "Labels" => !i.labels.is_empty(),
        "Dependencies" | "Deps" => !i.dependencies.is_empty(),
        _ => i.agent_context.is_some(),
    }
}

#[test]
fn every_accepted_section_spelling_still_parses() {
    let cases = [
        "ID",
        "Parent",
        "PRIORITY",
        "Type",
        "Description",
        "Design",
        "Acceptance Criteria",
        "Acceptance",
        "ASSIGNEE",
        "Labels",
        "Dependencies",
        "Deps",
        "Agent Context",
        "agent-context",
        "agent_context",
    ];
    for header in cases {
        let content = format!("## T\n### {header}\nvalue\n");
        let issues = parse_bulk_markdown(&content)
            .unwrap_or_else(|e| panic!("`### {header}` must still parse: {e:?}"));
        assert!(populated(header, &issues[0]), "`### {header}` parsed but populated no field");
    }
}

#[test]
fn known_section_before_the_first_issue_rejected() {
    let err = parse_bulk_markdown("### ID\nstand-in-1\n### Priority\n0\n## Real Title\n### Type\ntask\n")
        .expect_err("a `### ` before the first `## ` must reject");
    assert_eq!(err.code, ErrorCode::ValidationFailed);
    assert_eq!(ctx_text(&err, "kind").as_deref(), Some("section_before_issue"));
    assert_eq!(ctx_text(&err, "section").as_deref(), Some("ID"));
    assert_eq!(ctx_num(&err, "line"), Some(1));
}

#[test]
fn structural_error_wins_over_unknown_section() {
    let err = parse_bulk_markdown("### Bogus\nx\n## T\n").expect_err("must reject");
    assert_eq!(ctx_text(&err, "kind").as_deref(), Some("section_before_issue"));
}

#[test]
fn empty_section_header_rejected_with_a_distinct_kind() {
    let err = parse_bulk_markdown("## t\n### \n").expect_err("an empty `### ` must reject");
    assert_eq!(err.code, ErrorCode::ValidationFailed);
    assert_eq!(ctx_text(&err, "kind").as_deref(), Some("empty_section_header"));
    assert_ne!(ctx_text(&err, "kind").as_deref(), Some("unknown_section"));
    assert_eq!(ctx_num(&err, "line"), Some(2));
}

#[test]
fn echoed_unknown_header_is_truncated() {
    let header = "Z".repeat(4000);
    let err = parse_bulk_markdown(&format!("## t\n### {header}\n")).expect_err("must reject");
    let echoed = ctx_text(&err, "section").expect("section");
    assert!(echoed.chars().count() <= MAX_ECHOED_HEADER_CHARS + 16, "{}", echoed.len());
    assert!(echoed.ends_with("…[truncated]"));
    assert!(err.message.len() < 200, "message len {}", err.message.len());
}

#[test]
fn stand_in_id_section() {
    let content = "## Build Database Schema\n### ID\ndb-1\n### Type\ntask\n\n## Build API Endpoints\n### Type\nfeature\n### Dependencies\ndb-1\n";
    let issues = parse(content);
    assert_eq!(issues.len(), 2);
    assert_eq!(issues[0].stand_in_id.as_deref(), Some("db-1"));
    assert_eq!(issues[1].dependencies, vec!["db-1"]);
}

#[test]
fn title_based_dependencies_bulleted() {
    let content = "## Build API Endpoints\n### Type\nfeature\n### Dependencies\n- Build Database Schema\n\n## Build Database Schema\n### Type\ntask\n";
    let issues = parse(content);
    assert_eq!(issues[0].dependencies, vec!["Build Database Schema"]);
}

#[test]
fn design_section() {
    let issues = parse("## Test Issue\n### Design\nDesign notes here.\nMulti-line content.\n");
    let design = issues[0].design.as_deref().expect("design");
    assert!(design.contains("Design notes"));
}

#[test]
fn agent_context_aliases() {
    for header in ["Agent Context", "agent-context", "AGENT CONTEXT", "agent_context"] {
        let content = format!("## Issue\n### {header}\nopaque body\n");
        let issues = parse(&content);
        assert_eq!(
            issues[0].agent_context.as_deref(),
            Some("opaque body"),
            "header `{header}` should map to agent_context"
        );
    }
}

#[test]
fn agent_context_opaque_multiline() {
    let content = "## Issue\n### Agent Context\n{\"skills\": [\"release-notes\"]}\nsecond line of opaque text\n";
    let issues = parse(content);
    let ctx = issues[0].agent_context.as_deref().expect("ctx");
    assert!(ctx.contains("release-notes"));
    assert!(ctx.contains("second line of opaque text"));
}

#[test]
fn assignee_section() {
    let issues = parse("## Test Issue\n### Assignee\nalice\n");
    assert_eq!(issues[0].assignee.as_deref(), Some("alice"));
}

#[test]
fn blocked_by_dep_preserved_verbatim() {
    let issues = parse("## Test Issue\n### Dependencies\nblocked-by:ub-1\n");
    assert_eq!(issues[0].dependencies, vec!["blocked-by:ub-1"]);
}

#[test]
fn empty_content_is_ok_empty() {
    let issues = parse("   \n\n  ");
    assert!(issues.is_empty());
}

#[test]
fn non_empty_without_header_rejects() {
    let err = parse_bulk_markdown("### Description\nNo issue header here.\n").expect_err("must reject");
    assert_eq!(err.code, ErrorCode::ValidationFailed);
    assert_eq!(ctx_text(&err, "kind").as_deref(), Some("section_before_issue"));
}

#[test]
fn prose_without_any_header_still_reports_no_issues() {
    let err = parse_bulk_markdown("just some prose\n").expect_err("must reject");
    assert_eq!(err.code, ErrorCode::ValidationFailed);
    assert_eq!(ctx_text(&err, "kind").as_deref(), Some("no_issues"));
}

#[test]
fn a_fenced_unknown_h3_is_content_not_a_section() {
    let content = "## T\n### Design\nexample:\n```\n### Bogus Section\nbody\n```\ntail\n";
    let issues = parse_bulk_markdown(content).expect("an H3 inside a fence is content");
    assert_eq!(issues.len(), 1);
    let design = issues[0].design.as_deref().expect("design");
    assert!(design.contains("### Bogus Section"), "{design:?}");
    assert!(design.contains("body"), "{design:?}");
    assert!(design.ends_with("tail"), "{design:?}");
}

#[test]
fn a_fenced_known_h3_does_not_tear_the_fence_apart() {
    let content = "## T\n### Design\nexample:\n```\n### Description\nINSIDE-FENCE\n```\n";
    let issues = parse_bulk_markdown(content).expect("parse");
    assert_eq!(issues.len(), 1);
    assert_eq!(issues[0].description, None);
    let design = issues[0].design.as_deref().expect("design");
    assert_eq!(design, "example:\n```\n### Description\nINSIDE-FENCE\n```");
}

#[test]
fn a_fenced_h2_does_not_start_a_new_issue() {
    let issues = parse_bulk_markdown("## T\n### Design\n```\n## Not A Title\n```\n").expect("parse");
    assert_eq!(issues.len(), 1, "a fenced `## ` must not split the record");
    assert_eq!(issues[0].title, "T");
}

#[test]
fn tilde_and_long_and_info_string_fences_are_all_tracked() {
    for open in ["~~~", "~~~~~", "```rust", "````", "```rust,ignore", "   ```"] {
        let close = if open.trim_start().starts_with('~') { open.trim_start() } else { "```````" };
        let content = format!("## T\n### Design\n{open}\n### Bogus\n{close}\n");
        let issues = parse_bulk_markdown(&content)
            .unwrap_or_else(|e| panic!("fence `{open}` must open a code block: {e:?}"));
        assert!(
            issues[0].design.as_deref().is_some_and(|d| d.contains("### Bogus")),
            "fence `{open}` did not protect its body"
        );
    }
}

#[test]
fn a_shorter_or_annotated_run_does_not_close_the_fence() {
    let content = "## T\n### Design\n````\n```\n### Bogus\n``` still open\n````\n";
    let issues = parse_bulk_markdown(content).expect("parse");
    let design = issues[0].design.as_deref().expect("design");
    assert!(design.contains("### Bogus"), "{design:?}");
    assert!(design.contains("``` still open"), "{design:?}");
}

#[test]
fn a_backtick_in_a_backtick_info_string_does_not_open_a_fence() {
    let err = parse_bulk_markdown("## T\n### Design\n``` a`b\n### Bogus\n")
        .expect_err("no fence opened, so `### Bogus` is a genuine unknown section");
    assert_eq!(ctx_text(&err, "kind").as_deref(), Some("unknown_section"));
}

#[test]
fn an_unterminated_fence_is_rejected_naming_the_opening_line() {
    let err = parse_bulk_markdown("## T\n### Design\n```\ncode\n## Another\n### Type\ntask\n")
        .expect_err("an unterminated fence must reject");
    assert_eq!(err.code, ErrorCode::ValidationFailed);
    assert_eq!(ctx_text(&err, "kind").as_deref(), Some("unterminated_code_fence"));
    assert_eq!(ctx_text(&err, "field").as_deref(), Some("markdown"));
    assert_eq!(ctx_num(&err, "line"), Some(3), "the opening line, not EOF");
    assert!(err.hint.is_some_and(|h| h.contains("```")));
}

#[test]
fn an_indented_code_block_h3_is_already_content() {
    for indent in ["    ", "\t", "      "] {
        let content = format!("## T\n### Design\ntext\n\n{indent}### Bogus\n{indent}body\n");
        let issues = parse_bulk_markdown(&content)
            .unwrap_or_else(|e| panic!("indent {indent:?} must stay content: {e:?}"));
        assert!(
            issues[0].design.as_deref().is_some_and(|d| d.contains("### Bogus")),
            "indent {indent:?} lost the indented-code H3"
        );
    }
}

#[test]
fn an_indented_delimiter_does_not_open_a_fence() {
    let issues = parse_bulk_markdown("## T\n### Design\n    ```\nplain text\n")
        .expect("an indented ``` is code-block content, not a fence opener");
    let design = issues[0].design.as_deref().expect("design");
    assert!(design.contains("```"), "{design:?}");
    assert!(design.ends_with("plain text"), "{design:?}");
}

#[test]
fn a_run_shorter_than_three_is_not_a_fence() {
    for short in ["`", "``", "~", "~~"] {
        let err = parse_bulk_markdown(&format!("## T\n### Design\n{short}\n### Bogus\nx\n"))
            .expect_err("`### Bogus` is a real header: no fence was opened");
        assert_eq!(ctx_text(&err, "kind").as_deref(), Some("unknown_section"), "`{short}`");
    }
}

#[test]
fn a_fence_is_only_closed_by_its_own_marker() {
    let issues = parse_bulk_markdown("## T\n### Design\n~~~\n```\n### Bogus\n```\n~~~\n")
        .expect("a ``` line must not close a ~~~ fence");
    let design = issues[0].design.as_deref().expect("design");
    assert!(design.contains("### Bogus"), "{design:?}");
    assert!(design.ends_with("~~~"), "{design:?}");
}

#[test]
fn fence_tracking_does_not_disable_the_unknown_section_rejection() {
    let err = parse_bulk_markdown("## T\n### Design\n```\ncode\n```\n### Bogus\nx\n")
        .expect_err("a closed fence must not suppress a later real unknown section");
    assert_eq!(ctx_text(&err, "kind").as_deref(), Some("unknown_section"));
    assert_eq!(ctx_num(&err, "line"), Some(6));
}

#[test]
fn arbitrary_utf8_never_panics() {
    for content in ["", "##", "###", "## \n###\n", "## t\n### \n", "\u{0}## x"] {
        let _ = parse_bulk_markdown(content);
    }
}

#[test]
fn a_parse_error_keeps_the_document_all_or_nothing() {
    let err = parse_bulk_markdown("## Good\n### Type\ntask\n\n## Bad\n### Nope\nx\n")
        .expect_err("one bad section refuses the whole document");
    assert_eq!(ctx_text(&err, "section").as_deref(), Some("Nope"));
    assert_eq!(ctx_num(&err, "line"), Some(6));
}

#[test]
fn content_lines_before_the_first_section_keep_only_the_first_non_blank_one() {
    let mut lines: Vec<Vec<char>> = vec![];
    let mut captured = false;
    for l in ["", "first", "second"] {
        let line: Vec<char> = l.chars().collect();
        collect_content_line(&line, true, Section::BeforeH3, &mut lines, &mut captured);
    }
    assert_eq!(lines, vec!["first".chars().collect::<Vec<char>>()]);
    assert!(captured);
    let outside: Vec<char> = "dropped".chars().collect();
    collect_content_line(&outside, false, Section::Design, &mut lines, &mut captured);
    assert_eq!(lines.len(), 1);
}

#[test]
fn a_document_without_headers_or_fences_holds_no_issue() {
    assert!(parse("").is_empty());
    assert!(parse("\n   \n\t\n").is_empty());
    for content in ["just prose\n", "# a level-one heading\ntext", "##no space is no header\n", "- [ ] a task\n\n"] {
        let err = parse_bulk_markdown(content).expect_err("no issues");
        assert_eq!(err.code, ErrorCode::ValidationFailed);
        assert_eq!(ctx_text(&err, "kind").as_deref(), Some("no_issues"));
        assert_eq!(ctx_text(&err, "field").as_deref(), Some("markdown"));
    }
}
