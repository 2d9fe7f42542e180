use diffpane::model::{AnchorKind, ProgressState, Side, Verdict};
use diffpane::validate::{
    validate_anchor, validate_body, validate_progress_state, validate_resolved, validate_verdict, ApiError, Json,
    JsonNumber,
};

fn text(value: &str) -> Json {
    Json::String(value.to_owned())
}

fn number(value: u64) -> Json {
    Json::Number(JsonNumber::Unsigned(value))
}

fn object(members: Vec<(&str, Json)>) -> Json {
    Json::Object(members.into_iter().map(|(key, value)| (key.to_owned(), value)).collect())
}

fn anchor(value: Json) -> Result<diffpane::model::Anchor, ApiError> {
    validate_anchor(Some(&value))
}

fn line_anchor(side: Json, line: Option<Json>) -> Json {
    let mut members = vec![("kind", text("line")), ("file", text("a.ts")), ("hunk", text("f0h0")), ("side", side)];
    if let Some(line) = line {
        members.push(("line", line));
    }
    object(members)
}

#[test]
fn accepts_a_well_formed_line_anchor() {
    let value = object(vec![
        ("kind", text("line")),
        ("file", text("a.ts")),
        ("hunk", text("f0h0")),
        ("side", text("new")),
        ("line", number(12)),
        ("chapter", text("c1")),
    ]);
    let parsed = anchor(value).unwrap();
    assert_eq!(parsed.kind, AnchorKind::Line);
    assert_eq!(parsed.line, Some(12));
    assert_eq!(parsed.chapter.as_deref(), Some("c1"));
    assert_eq!(parsed.side, Some(Side::New));
}

#[test]
fn normalises_absent_anchor_fields_to_null() {
    let parsed = anchor(object(vec![("kind", text("file")), ("file", text("a.ts"))])).unwrap();
    assert_eq!(parsed.hunk, None);
    assert_eq!(parsed.line, None);
    assert_eq!(parsed.chapter, None);
}

#[test]
fn rejects_malformed_anchors() {
    let cases = vec![
        Json::Null,
        text("nope"),
        Json::Array(Vec::new()),
        object(vec![("kind", text("nonsense"))]),
        line_anchor(text("new"), None),
        line_anchor(text("sideways"), Some(number(1))),
        line_anchor(text("new"), Some(Json::Number(JsonNumber::Fractional))),
        line_anchor(text("new"), Some(number(0))),
        object(vec![("kind", text("file"))]),
        object(vec![("kind", text("chapter"))]),
        object(vec![("kind", text("file")), ("file", object(vec![("path", text("a.ts"))]))]),
        object(vec![("kind", text("chapter")), ("chapter", object(vec![("id", text("c1"))]))]),
    ];
    for case in cases {
        let shown = format!("{case:?}");
        assert!(anchor(case).is_err(), "{shown}");
    }
}

#[test]
fn rejects_unknown_verdicts() {
    assert_eq!(validate_verdict(Some(&text("fix"))).unwrap(), Verdict::Fix);
    assert!(validate_verdict(Some(&text("approve"))).is_err());
    assert!(validate_verdict(None).is_err());
    assert!(validate_verdict(Some(&Json::Null)).is_err());
}

#[test]
fn rejects_empty_comment_bodies() {
    assert_eq!(validate_body(Some(&text("  hi  "))).unwrap(), "hi");
    assert!(validate_body(Some(&text("   "))).is_err());
    assert!(validate_body(Some(&number(42))).is_err());
    assert!(validate_body(None).is_err());
}

#[test]
fn requires_a_real_boolean_for_resolved() {
    assert!(!validate_resolved(Some(&Json::Bool(false))).unwrap());
    assert!(validate_resolved(Some(&text("false"))).is_err());
    assert!(validate_resolved(Some(&number(0))).is_err());
}

#[test]
fn validates_progress_states() {
    assert_eq!(validate_progress_state(Some(&text("reviewed"))).unwrap(), ProgressState::Reviewed);
    assert!(validate_progress_state(Some(&text("done"))).is_err());
}

#[test]
fn names_the_first_problem_with_an_anchor() {
    let message = |value: Json| anchor(value).unwrap_err().message;
    assert_eq!(message(Json::Null), "anchor must be an object");
    assert_eq!(message(object(vec![("kind", text("nonsense"))])), "anchor.kind must be one of line, file, chapter, overall");
    assert_eq!(message(line_anchor(text("new"), None)), "anchor.line must be a positive integer");
    assert_eq!(message(line_anchor(text("up"), Some(number(3)))), "anchor.side must be 'old' or 'new'");
    assert_eq!(message(object(vec![("kind", text("file"))])), "file anchor requires file");
    assert_eq!(
        message(object(vec![("kind", text("file")), ("file", number(1))])),
        "anchor.file must be a string"
    );
    assert_eq!(
        message(object(vec![("kind", text("overall")), ("chapter", Json::Bool(true))])),
        "anchor.chapter must be a string"
    );
    assert_eq!(anchor(line_anchor(text("old"), Some(number(7)))).unwrap().line, Some(7));
}

#[test]
fn empty_and_null_members_read_as_absent() {
    let parsed = anchor(object(vec![
        ("kind", text("overall")),
        ("file", text("")),
        ("hunk", Json::Null),
        ("chapter", text("c2")),
    ]))
    .unwrap();
    assert_eq!(parsed.file, None);
    assert_eq!(parsed.hunk, None);
    assert_eq!(parsed.chapter.as_deref(), Some("c2"));
}

#[test]
fn errors_carry_their_status() {
    assert_eq!(validate_resolved(None).unwrap_err().status, 400);
    let error = ApiError::new("no such comment: c-1", 404);
    assert_eq!(error.status, 404);
    assert_eq!(error.to_string(), "no such comment: c-1");
    assert_eq!(ApiError::bad_request("x").status, 400);
}
