use diffpane::model::{
    Anchor, AnchorKind, Chapter, Comment, DiffLine, FileDiff, FileStatus, Hunk, LineType, Meta,
    Overall, ProgressState, Review, ReviewState, Scope, Side, Totals, Verdict,
};
use diffpane::report::{
    build_json, build_markdown, fence_for, line_text, open_comments, outcome_of, verdict_word,
    Outcome, ReportInput,
};

fn files() -> Vec<FileDiff> {
    vec![FileDiff {
        id: "f0".into(),
        path: "src/a.ts".into(),
        old_path: "src/a.ts".into(),
        status: FileStatus::Modified,
        additions: 1,
        deletions: 1,
        binary: false,
        noise: false,
        language: Some("typescript".into()),
        truncated: false,
        hunks: vec![Hunk {
            id: "f0h0".into(),
            header: "@@ -1,2 +1,2 @@".into(),
            old_start: 1,
            old_count: 2,
            new_start: 1,
            new_count: 2,
            additions: 1,
            deletions: 1,
            lines: vec![
                DiffLine { i: 0, kind: LineType::Del, old: Some(1), new: None, text: "const a = 1;".into() },
                DiffLine { i: 1, kind: LineType::Add, old: None, new: Some(1), text: "const a = 2;".into() },
            ],
        }],
    }]
}

fn meta() -> Meta {
    Meta {
        repo: "demo".into(),
        repo_root: "/tmp/demo".into(),
        slug: "2026-01-01-demo".into(),
        title: "Demo".into(),
        scope: Scope::Branch,
        base: "main".into(),
        head: "feature".into(),
        diff_cmd: "git diff main...HEAD".into(),
        generated_at: "2026-01-01T00:00:00Z".into(),
        totals: Totals { files: 1, additions: 1, deletions: 1 },
    }
}

fn anchor(file: Option<&str>) -> Anchor {
    Anchor {
        kind: AnchorKind::Line,
        file: file.map(str::to_string),
        hunk: None,
        side: None,
        line: None,
        chapter: None,
    }
}

fn comment(verdict: Verdict, anchor: Anchor, resolved: bool) -> Comment {
    Comment {
        id: format!("c-{}", verdict_word(verdict)),
        anchor,
        verdict,
        body: format!("{} note", verdict_word(verdict)),
        created_at: "2026-01-01T00:00:00Z".into(),
        updated_at: "2026-01-01T00:00:00Z".into(),
        resolved,
    }
}

fn anchored_line() -> Anchor {
    Anchor { hunk: Some("f0h0".into()), side: Some(Side::New), line: Some(1), ..anchor(Some("src/a.ts")) }
}

fn submitted(comments: Vec<Comment>) -> ReviewState {
    ReviewState { submitted: true, comments, ..ReviewState::default() }
}

#[test]
fn finds_the_diff_line_an_anchor_points_at() {
    let files = files();
    assert_eq!(line_text(&files, &anchored_line()).unwrap(), "+const a = 2;");
    let old = Anchor { side: Some(Side::Old), ..anchored_line() };
    assert_eq!(line_text(&files, &old).unwrap(), "-const a = 1;");
    assert_eq!(line_text(&files, &Anchor { line: Some(99), ..anchored_line() }), None);
    let elsewhere = Anchor { file: Some("nope.ts".into()), ..anchored_line() };
    assert_eq!(line_text(&files, &elsewhere), None);
}

#[test]
fn an_unsubmitted_review_is_abandoned() {
    assert_eq!(outcome_of(&ReviewState::default()), Outcome::Abandoned);
    assert_eq!(Outcome::Abandoned.exit_code(), 2);
}

#[test]
fn submitting_with_no_open_fix_comments_is_approval() {
    let state = submitted(vec![comment(Verdict::Question, anchor(Some("src/a.ts")), false)]);
    assert_eq!(outcome_of(&state), Outcome::Approved);
}

#[test]
fn an_open_fix_comment_requests_changes() {
    let state = submitted(vec![comment(Verdict::Fix, anchor(Some("src/a.ts")), false)]);
    assert_eq!(outcome_of(&state), Outcome::ChangesRequested);
    assert_eq!(Outcome::ChangesRequested.exit_code(), 1);
}

#[test]
fn a_resolved_fix_comment_no_longer_blocks() {
    let state = submitted(vec![comment(Verdict::Fix, anchor(Some("src/a.ts")), true)]);
    assert_eq!(outcome_of(&state), Outcome::Approved);
}

#[test]
fn an_overall_fix_verdict_requests_changes_on_its_own() {
    let state = ReviewState {
        overall: Overall { verdict: Some(Verdict::Fix), body: "no".into() },
        ..submitted(vec![])
    };
    assert_eq!(outcome_of(&state), Outcome::ChangesRequested);
}

#[test]
fn markdown_groups_by_file_and_quotes_the_anchored_line() {
    let files = files();
    let meta = meta();
    let state = submitted(vec![comment(Verdict::Fix, anchored_line(), false)]);
    let markdown = build_markdown(&ReportInput { meta: &meta, files: &files, review: None, state: &state });
    assert!(markdown.contains("## src/a.ts"), "{markdown}");
    assert!(markdown.contains("[FIX] src/a.ts:1"), "{markdown}");
    assert!(markdown.contains("+const a = 2;"), "{markdown}");
    assert!(markdown.contains("1 open comment(s), 0 resolved"), "{markdown}");
}

#[test]
fn markdown_reports_an_in_progress_review_as_unsubmitted() {
    let files = files();
    let meta = meta();
    let state = ReviewState::default();
    let markdown = build_markdown(&ReportInput { meta: &meta, files: &files, review: None, state: &state });
    assert!(markdown.contains("IN PROGRESS (not submitted)"), "{markdown}");
}

#[test]
fn markdown_indents_a_continuation_line_and_widens_the_fence() {
    let files = files();
    let meta = meta();
    let mut pinned = comment(Verdict::Fix, anchored_line(), false);
    pinned.body = "first\nsecond".into();
    let state = submitted(vec![pinned]);
    let markdown = build_markdown(&ReportInput { meta: &meta, files: &files, review: None, state: &state });
    assert!(markdown.contains("— first\n  second\n"), "{markdown}");
    assert_eq!(fence_for("no backticks"), "```");
    assert_eq!(fence_for("a ``` b"), "````");
}

#[test]
fn json_output_carries_outcome_code_and_location() {
    let files = files();
    let meta = meta();
    let state = submitted(vec![comment(Verdict::Fix, anchored_line(), false)]);
    let report = build_json(&ReportInput { meta: &meta, files: &files, review: None, state: &state });
    assert_eq!(report.outcome, Outcome::ChangesRequested);
    assert_eq!(report.comments.len(), 1);
    assert_eq!(report.comments[0].file, Some("src/a.ts"));
    assert_eq!(report.comments[0].code.as_deref(), Some("+const a = 2;"));
    // The wire spells the outcome in kebab-case.
    assert_eq!(report.outcome.name(), "changes-requested");
}

#[test]
fn resolved_comments_stay_out_of_the_report() {
    let files = files();
    let meta = meta();
    let state = submitted(vec![comment(Verdict::Fix, anchor(Some("src/a.ts")), true)]);
    let markdown = build_markdown(&ReportInput { meta: &meta, files: &files, review: None, state: &state });
    assert!(markdown.contains("0 open comment(s), 1 resolved"), "{markdown}");
}

#[test]
fn lists_unreviewed_chapters_by_title() {
    let files = files();
    let meta = meta();
    let review = Review {
        title: None,
        story: None,
        chapters: vec![Chapter {
            id: "c1".into(),
            title: "The interesting one".into(),
            intent: None,
            why: None,
            hunks: vec![],
            size: None,
            flags: None,
        }],
        file_notes: None,
    };
    let state = submitted(vec![]);
    let markdown = build_markdown(&ReportInput { meta: &meta, files: &files, review: Some(&review), state: &state });
    assert!(markdown.contains("Chapters not marked reviewed: The interesting one"), "{markdown}");
}

#[test]
fn the_whole_markdown_report_for_one_fix_comment() {
    let files = files();
    let meta = meta();
    let state = submitted(vec![comment(Verdict::Fix, anchored_line(), false)]);
    let markdown = build_markdown(&ReportInput { meta: &meta, files: &files, review: None, state: &state });
    assert_eq!(
        markdown,
        "# Review feedback — Demo\n\nScope: `git diff main...HEAD` · submitted\n\n1 open comment(s), 0 resolved.\n\n## src/a.ts\n\n- **[FIX] src/a.ts:1** — fix note\n  ```\n  +const a = 2;\n  ```\n"
    );
}

#[test]
fn groups_keep_first_appearance_order_and_sort_by_line_stably() {
    let files = files();
    let meta = meta();
    let at = |file: &str, line: u32, body: &str| Comment {
        body: body.into(),
        anchor: Anchor { kind: AnchorKind::File, line: Some(line), ..anchor(Some(file)) },
        ..comment(Verdict::Question, anchor(None), false)
    };
    let general = Comment {
        anchor: Anchor { kind: AnchorKind::Overall, ..anchor(None) },
        body: "overall thought".into(),
        ..comment(Verdict::Okay, anchor(None), false)
    };
    let chapter = Comment {
        anchor: Anchor { kind: AnchorKind::Chapter, chapter: Some("c9".into()), ..anchor(None) },
        body: "chapter thought".into(),
        ..comment(Verdict::Okay, anchor(None), false)
    };
    let state = submitted(vec![
        at("b.ts", 9, "b-late"),
        at("a.ts", 3, "a-first"),
        general,
        at("b.ts", 2, "b-early"),
        at("b.ts", 9, "b-late-again"),
        chapter,
    ]);
    let markdown = build_markdown(&ReportInput { meta: &meta, files: &files, review: None, state: &state });
    let b = markdown.find("## b.ts").unwrap();
    let a = markdown.find("## a.ts").unwrap();
    let g = markdown.find("## general").unwrap();
    let c = markdown.find("## chapter: c9").unwrap();
    assert!(b < a && a < g && g < c, "{markdown}");
    let early = markdown.find("b-early").unwrap();
    let late = markdown.find("b-late\n").unwrap();
    let again = markdown.find("b-late-again").unwrap();
    assert!(early < late && late < again, "{markdown}");
    assert!(markdown.contains("- **[ok] general** — overall thought"), "{markdown}");
}

#[test]
fn open_comments_skip_the_resolved_ones() {
    let state = submitted(vec![
        comment(Verdict::Fix, anchor(Some("a")), true),
        comment(Verdict::Question, anchor(Some("b")), false),
    ]);
    let open = open_comments(&state);
    assert_eq!(open.len(), 1);
    assert_eq!(open[0].verdict, Verdict::Question);
}

#[test]
fn a_reviewed_chapter_is_not_listed() {
    let files = files();
    let meta = meta();
    let chapter = |id: &str, title: &str| Chapter {
        id: id.into(),
        title: title.into(),
        intent: None,
        why: None,
        hunks: vec![],
        size: None,
        flags: None,
    };
    let review = Review {
        title: None,
        story: None,
        chapters: vec![chapter("c1", "One"), chapter("c2", "Two"), chapter("c3", "Three")],
        file_notes: None,
    };
    let state = ReviewState {
        progress: vec![("c2".into(), ProgressState::Reviewed), ("c3".into(), ProgressState::Unreviewed)],
        ..submitted(vec![])
    };
    let markdown = build_markdown(&ReportInput { meta: &meta, files: &files, review: Some(&review), state: &state });
    assert!(markdown.ends_with("Chapters not marked reviewed: One, Three\n"), "{markdown}");
}

#[test]
fn the_overall_line_names_the_verdict_or_says_none() {
    let files = files();
    let meta = meta();
    let state = ReviewState { overall: Overall { verdict: None, body: "notes".into() }, ..submitted(vec![]) };
    let markdown = build_markdown(&ReportInput { meta: &meta, files: &files, review: None, state: &state });
    assert!(markdown.contains("**Overall [n/a]** notes"), "{markdown}");
}

#[test]
fn each_open_comment_is_one_list_item_and_the_report_opens_with_title_and_scope() {
    let meta = meta();
    let files = files();
    let comments = vec![
        comment(Verdict::Fix, anchored_line(), false),
        comment(Verdict::Question, anchor(Some("src/lib.rs")), false),
        comment(Verdict::Okay, anchor(None), true),
    ];
    let state = submitted(comments);
    let markdown = build_markdown(&ReportInput { meta: &meta, files: &files, review: None, state: &state });
    let lines: Vec<&str> = markdown.split('\n').collect();
    assert_eq!(lines.iter().filter(|line| line.starts_with("- **")).count(), 2);
    assert_eq!(lines[0], format!("# Review feedback — {}", meta.title));
    assert_eq!(lines[1], "");
    assert!(lines[2].starts_with("Scope: `"));
    assert!(lines.contains(&"2 open comment(s), 1 resolved."));
    assert!(markdown.ends_with('\n'));
}
