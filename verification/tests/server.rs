use diffpane::model::{Chapter, Comment, ProgressState, Review, ReviewState, Verdict};
use diffpane::report::{outcome_of, Outcome};
use diffpane::server::{
    add_comment, comment_from, content_type_for, content_type_of, delete_comment, fresh_comment_id,
    generate_token, guard_api, host_name, is_loopback_host, knows_chapter, media_type_essence, next_bind,
    page_cookie, parse_overall, require_asset_token, patch_comment, patch_from, progress_chapter, progress_request, read_cookie, require_object,
    safe_equal, set_progress, submit, TokenQuery,
};
use diffpane::validate::{Json, JsonNumber};

const TOKEN: &str = "0123456789abcdef0123456789abcdef";

fn text(value: &str) -> Json {
    Json::String(value.to_owned())
}

fn object(members: Vec<(&str, Json)>) -> Json {
    Json::Object(members.into_iter().map(|(key, value)| (key.to_owned(), value)).collect())
}

fn anchor() -> Json {
    object(vec![
        ("kind", text("line")),
        ("file", text("a.ts")),
        ("hunk", text("f0h0")),
        ("side", text("new")),
        ("line", Json::Number(JsonNumber::Unsigned(1))),
    ])
}

fn review() -> Review {
    Review {
        title: None,
        story: None,
        chapters: vec![Chapter {
            id: "c1".into(),
            title: "Cache layer".into(),
            intent: None,
            why: None,
            hunks: vec!["f0h0".into()],
            size: None,
            flags: None,
        }],
        file_notes: None,
    }
}

fn comment(id: &str, verdict: &str, body: &str) -> Comment {
    let request = object(vec![("anchor", anchor()), ("verdict", text(verdict)), ("body", text(body))]);
    comment_from(&request, id.to_owned(), "2026-01-01T00:00:00Z").unwrap()
}

#[test]
fn strips_ports_from_host_headers() {
    assert_eq!(host_name("127.0.0.1:8080"), "127.0.0.1");
    assert_eq!(host_name("127.0.0.1"), "127.0.0.1");
    assert_eq!(host_name("[::1]:8080"), "::1");
    assert_eq!(host_name("::1"), "::1");
    assert_eq!(host_name("evil.example.com:80"), "evil.example.com");
    assert_eq!(host_name("[bad"), "");
}

#[test]
fn compares_tokens_without_leaking_a_prefix() {
    let token = generate_token().expect("the OS must be able to produce 16 random bytes");
    assert_eq!(token.len(), 32);
    assert!(safe_equal(&token, &token.clone()));
    assert!(!safe_equal(&token, &token[..31]));
    assert!(!safe_equal("", &token));
}

#[test]
fn types_assets_by_extension() {
    assert_eq!(content_type_for("app.css"), "text/css; charset=utf-8");
    assert_eq!(content_type_for("app.js"), "text/javascript; charset=utf-8");
    assert_eq!(content_type_for("logo.png"), "image/png");
    assert_eq!(content_type_for("weird.bin"), "application/octet-stream");
}

#[test]
fn names_each_served_content_type() {
    assert_eq!(content_type_of(Some("html")), "text/html; charset=utf-8");
    assert_eq!(content_type_of(Some("json")), "application/json; charset=utf-8");
    assert_eq!(content_type_of(Some("svg")), "image/svg+xml");
    assert_eq!(content_type_of(Some("ico")), "image/x-icon");
    assert_eq!(content_type_of(None), "application/octet-stream");
    assert_eq!(content_type_for("README"), "application/octet-stream");
}

#[test]
fn only_loopback_literals_pass_the_host_check() {
    assert!(is_loopback_host(Some("127.0.0.1")));
    assert!(is_loopback_host(Some("127.0.0.1:7777")));
    assert!(is_loopback_host(Some("::1")));
    assert!(is_loopback_host(Some("[::1]:7777")));
    assert!(!is_loopback_host(Some("localhost")));
    assert!(!is_loopback_host(Some("localhost:7777")));
    assert!(!is_loopback_host(Some("evil.example.com")));
    assert!(!is_loopback_host(None));
    assert_eq!(host_name("a:b:c"), "a:b:c");
    assert_eq!(host_name("host:"), "host:");
    assert_eq!(host_name("host:8x"), "host:8x");
}

#[test]
fn reads_the_media_type_essence() {
    assert_eq!(media_type_essence(Some("Application/JSON; charset=utf-8")), "application/json");
    assert_eq!(media_type_essence(Some("text/plain; x=application/json")), "text/plain");
    assert_eq!(media_type_essence(Some("  application/json  ")), "application/json");
    assert_eq!(media_type_essence(None), "");
}

#[test]
fn guards_the_api_on_host_token_and_content_type() {
    let host = Some("127.0.0.1:7777");
    assert!(guard_api(host, Some(TOKEN), true, None, TOKEN).is_ok());
    assert!(guard_api(host, Some(TOKEN), false, Some("Application/JSON; charset=utf-8"), TOKEN).is_ok());
    let error = guard_api(Some("localhost"), Some(TOKEN), true, None, TOKEN).unwrap_err();
    assert_eq!((error.status, error.message.as_str()), (403, "forbidden host"));
    let error = guard_api(host, None, true, None, TOKEN).unwrap_err();
    assert_eq!((error.status, error.message.as_str()), (403, "missing or invalid token"));
    let error = guard_api(host, Some(TOKEN), false, Some("text/plain; x=application/json"), TOKEN).unwrap_err();
    assert_eq!((error.status, error.message.as_str()), (415, "content-type must be application/json"));
    let error = guard_api(host, Some(TOKEN), false, None, TOKEN).unwrap_err();
    assert_eq!(error.status, 415);
}

#[test]
fn assets_take_the_query_token_or_the_page_cookie() {
    assert_eq!(read_cookie("a=1; diffpane_token=abc; b=2", "diffpane_token"), "abc");
    assert_eq!(read_cookie("diffpane_token", "diffpane_token"), "");
    assert_eq!(read_cookie("", "diffpane_token"), "");
    assert_eq!(read_cookie(" x=1 ;y= 2", "y"), " 2");
    let tok = |t: Option<&str>| TokenQuery { t: t.map(str::to_owned) };
    assert!(require_asset_token(tok(Some("s")), "", "s").is_ok());
    assert!(require_asset_token(tok(None), "diffpane_token=s", "s").is_ok());
    assert!(require_asset_token(tok(Some("wrong")), "diffpane_token=s", "s").is_ok());
    assert!(require_asset_token(tok(Some("s")), "diffpane_token=wrong", "s").is_ok());
    let refused = require_asset_token(tok(Some("wrong")), "diffpane_token=bad", "s").unwrap_err();
    assert_eq!((refused.status, refused.message.as_str()), (403, "missing or invalid token"));
    assert!(require_asset_token(tok(None), "", "s").is_err());
    assert_eq!(page_cookie("abc"), "diffpane_token=abc; Path=/; SameSite=Strict; Max-Age=86400");
}

#[test]
fn walks_forward_until_the_attempts_or_the_ports_run_out() {
    assert_eq!(next_bind(7777, 7777, 20, true), Some((7778, 19)));
    assert_eq!(next_bind(7777, 7790, 0, true), None);
    assert_eq!(next_bind(65535, 65535, 20, true), None);
    assert_eq!(next_bind(0, 0, 20, true), None);
    assert_eq!(next_bind(7777, 7777, 20, false), None);
}

#[test]
fn creates_patches_resolves_and_deletes_a_comment() {
    let mut state = ReviewState::default();
    let created = comment("c-000001", "fix", "needs a test");
    assert_eq!(created.verdict, Verdict::Fix);
    assert!(!created.resolved);
    add_comment(&mut state, created);
    assert_eq!(state.comments.len(), 1);
    state.submitted = true;
    assert_eq!(outcome_of(&state), Outcome::ChangesRequested);

    let body = object(vec![("resolved", Json::Bool(true)), ("body", text("needs a test, ideally"))]);
    let patch = patch_from(&body).unwrap();
    let index = patch_comment(&mut state, "c-000001", patch, "2026-01-01T00:00:09Z").unwrap();
    assert_eq!(index, 0);
    assert!(state.comments[0].resolved);
    assert_eq!(state.comments[0].body, "needs a test, ideally");
    assert_eq!(state.comments[0].updated_at, "2026-01-01T00:00:09Z");
    assert_eq!(state.comments[0].created_at, "2026-01-01T00:00:00Z");
    assert_eq!(outcome_of(&state), Outcome::Approved);

    delete_comment(&mut state, "c-000001").unwrap();
    assert!(state.comments.is_empty());
}

#[test]
fn unknown_comment_ids_are_404() {
    let mut state = ReviewState::default();
    add_comment(&mut state, comment("c-1", "ok", "fine"));
    let error = delete_comment(&mut state, "c-2").unwrap_err();
    assert_eq!((error.status, error.message.as_str()), (404, "no such comment: c-2"));
    let patch = patch_from(&object(vec![("verdict", text("fix"))])).unwrap();
    let error = patch_comment(&mut state, "c-2", patch, "t").unwrap_err();
    assert_eq!((error.status, error.message.as_str()), (404, "no such comment: c-2"));
    assert_eq!(state.comments.len(), 1);
    assert_eq!(state.comments[0].verdict, Verdict::Okay);
}

#[test]
fn a_delete_takes_every_comment_with_the_id_and_keeps_the_rest_in_order() {
    let mut state = ReviewState::default();
    add_comment(&mut state, comment("a", "ok", "one"));
    add_comment(&mut state, comment("b", "ok", "two"));
    add_comment(&mut state, comment("a", "ok", "three"));
    add_comment(&mut state, comment("c", "ok", "four"));
    delete_comment(&mut state, "a").unwrap();
    let bodies: Vec<&str> = state.comments.iter().map(|c| c.body.as_str()).collect();
    assert_eq!(bodies, ["two", "four"]);
}

#[test]
fn rejects_invalid_comments_and_patches() {
    let missing_body = object(vec![("anchor", anchor()), ("verdict", text("fix")), ("body", text("  "))]);
    assert_eq!(comment_from(&missing_body, "x".into(), "t").unwrap_err().message, "comment body is empty");
    let bad_verdict = object(vec![("anchor", anchor()), ("verdict", text("approve")), ("body", text("b"))]);
    assert_eq!(comment_from(&bad_verdict, "x".into(), "t").unwrap_err().message, "verdict must be one of ok, fix, question");
    let no_anchor = object(vec![("verdict", text("fix")), ("body", text("b"))]);
    assert_eq!(comment_from(&no_anchor, "x".into(), "t").unwrap_err().message, "anchor must be an object");
    let not_a_flag = object(vec![("resolved", text("false"))]);
    assert_eq!(patch_from(&not_a_flag).err().unwrap().message, "resolved must be a boolean");
    let untouched = patch_from(&object(vec![])).unwrap();
    assert!(untouched.verdict.is_none() && untouched.body.is_none() && untouched.resolved.is_none());
}

#[test]
fn records_progress_for_known_chapters_and_unsorted() {
    let review = review();
    assert!(knows_chapter(Some(&review), "c1"));
    assert!(knows_chapter(Some(&review), "unsorted"));
    assert!(knows_chapter(None, "unsorted"));
    assert!(!knows_chapter(Some(&review), "c9"));

    let body = object(vec![("chapter", text("unsorted")), ("state", text("reviewed"))]);
    let (chapter, value) = progress_request(&body, Some(&review)).unwrap();
    let mut state = ReviewState::default();
    set_progress(&mut state, chapter, value);
    set_progress(&mut state, "c1".to_owned(), ProgressState::Reviewed);
    set_progress(&mut state, "unsorted".to_owned(), ProgressState::Unreviewed);
    assert_eq!(state.progress.len(), 2);
    assert_eq!(state.progress[0], ("unsorted".to_owned(), ProgressState::Unreviewed));
    assert_eq!(state.progress[1], ("c1".to_owned(), ProgressState::Reviewed));

    let unknown = object(vec![("chapter", text("c9")), ("state", text("reviewed"))]);
    assert_eq!(progress_request(&unknown, Some(&review)).unwrap_err().message, "no such chapter: c9");
    let blank = object(vec![("chapter", text("")), ("state", text("reviewed"))]);
    assert_eq!(progress_request(&blank, Some(&review)).unwrap_err().message, "chapter is required");
    let bad_state = object(vec![("chapter", text("c1")), ("state", text("done"))]);
    assert_eq!(progress_request(&bad_state, Some(&review)).unwrap_err().message, "state must be one of unreviewed, reviewed");
}

#[test]
fn stores_and_clears_the_overall_verdict() {
    let overall = parse_overall(&object(vec![("verdict", text("fix")), ("body", text("  one blocker  "))])).unwrap();
    assert_eq!(overall.verdict, Some(Verdict::Fix));
    assert_eq!(overall.body, "one blocker");
    let cleared = parse_overall(&object(vec![("verdict", Json::Null)])).unwrap();
    assert_eq!(cleared.verdict, None);
    assert_eq!(cleared.body, "");
    assert!(parse_overall(&object(vec![("verdict", text("meh"))])).is_err());
}

#[test]
fn submitting_records_the_time_and_the_overall_verdict() {
    let mut state = ReviewState::default();
    let body = object(vec![("overall", object(vec![("verdict", text("fix")), ("body", text("one blocker"))]))]);
    submit(&mut state, &body, "2026-01-01T00:00:05Z").unwrap();
    assert!(state.submitted);
    assert_eq!(state.submitted_at.as_deref(), Some("2026-01-01T00:00:05Z"));
    assert_eq!(state.overall.verdict, Some(Verdict::Fix));
    assert_eq!(outcome_of(&state), Outcome::ChangesRequested);

    let mut other = ReviewState::default();
    let bad = object(vec![("overall", object(vec![("verdict", text("meh"))]))]);
    assert!(submit(&mut other, &bad, "t").is_err());
    assert!(!other.submitted);
    submit(&mut other, &object(vec![("overall", text("ignored"))]), "t").unwrap();
    assert!(other.submitted);
    assert_eq!(outcome_of(&other), Outcome::Approved);
}

#[test]
fn bodies_must_be_objects_and_ids_are_short_hex() {
    assert!(require_object(object(vec![])).is_ok());
    let error = require_object(Json::Array(Vec::new())).unwrap_err();
    assert_eq!((error.status, error.message.as_str()), (400, "body must be a JSON object"));
    let id = fresh_comment_id();
    assert_eq!(id.len(), 8);
    assert!(id.starts_with("c-"));
    assert!(id[2..].chars().all(|c| c.is_ascii_hexdigit() && !c.is_ascii_uppercase()));
}

#[test]
fn the_page_cookie_reads_back_as_the_token() {
    let token = generate_token().expect("the OS must be able to produce 16 random bytes");
    let cookie = page_cookie(&token);
    let pair = cookie.split(';').next().unwrap();
    assert_eq!(pair, format!("diffpane_token={token}"));
    assert_eq!(read_cookie(pair, "diffpane_token"), token);
    assert!(require_asset_token(TokenQuery { t: None }, pair, &token).is_ok());
}

#[test]
fn deleting_a_fresh_comment_restores_the_list() {
    let mut state = ReviewState::default();
    add_comment(&mut state, comment("c-1", "ok", "one"));
    add_comment(&mut state, comment("c-2", "fix", "two"));
    let before: Vec<Comment> = state.comments.clone();
    add_comment(&mut state, comment("c-3", "question", "three"));
    delete_comment(&mut state, "c-3").unwrap();
    assert_eq!(state.comments, before);
}

#[test]
fn a_progress_update_must_name_a_chapter_first() {
    assert_eq!(progress_chapter(&object(vec![("chapter", text("c1"))])).unwrap(), "c1");
    assert_eq!(progress_chapter(&object(vec![("chapter", Json::Null)])).unwrap_err().message, "chapter is required");
    assert_eq!(progress_chapter(&object(vec![])).unwrap_err().status, 400);
}

#[test]
fn a_patch_is_checked_verdict_then_body_then_resolved() {
    let all_bad = object(vec![("verdict", text("meh")), ("body", text(" ")), ("resolved", text("no"))]);
    assert_eq!(patch_from(&all_bad).err().unwrap().message, "verdict must be one of ok, fix, question");
    let body_and_flag_bad = object(vec![("verdict", text("ok")), ("body", text(" ")), ("resolved", text("no"))]);
    assert_eq!(patch_from(&body_and_flag_bad).err().unwrap().message, "comment body is empty");
    let flag_bad = object(vec![("body", text(" fine ")), ("resolved", Json::Null)]);
    let refused = patch_from(&flag_bad).err().unwrap();
    assert_eq!((refused.status, refused.message.as_str()), (400, "resolved must be a boolean"));
    let valid = object(vec![("verdict", text("question")), ("body", text(" why? ")), ("resolved", Json::Bool(true))]);
    let patch = patch_from(&valid).unwrap();
    assert_eq!(patch.verdict, Some(Verdict::Question));
    assert_eq!(patch.body.as_deref(), Some("why?"));
    assert_eq!(patch.resolved, Some(true));
}

#[test]
fn a_submitted_overall_note_is_stored_trimmed() {
    let mut state = ReviewState::default();
    let body = object(vec![("overall", object(vec![("verdict", text("ok")), ("body", text("  ship it "))]))]);
    submit(&mut state, &body, "t").unwrap();
    assert_eq!(state.overall.verdict, Some(Verdict::Okay));
    assert_eq!(state.overall.body, "ship it");
    let mut other = ReviewState::default();
    let bad = object(vec![("overall", object(vec![("verdict", text("meh"))]))]);
    let refused = submit(&mut other, &bad, "t").unwrap_err();
    assert_eq!((refused.status, refused.message.as_str()), (400, "verdict must be one of ok, fix, question"));
}

#[test]
fn assets_are_typed_by_the_extension_of_their_last_component() {
    assert_eq!(content_type_for("assets/app.js"), "text/javascript; charset=utf-8");
    assert_eq!(content_type_for("archive.tar.json"), "application/json; charset=utf-8");
    assert_eq!(content_type_for(".html"), "application/octet-stream");
    assert_eq!(content_type_for("index.html.bak"), "application/octet-stream");
    assert_eq!(content_type_for("favicon.ico"), "image/x-icon");
}
