use diffpane::cli::{build_meta, report_for, session_slug, totals, unknown_hunk_refs};
use diffpane::model::{Chapter, FileDiff, FileStatus, Hunk, Overall, Review, ReviewState, Scope, Totals, Verdict};
use diffpane::report::Outcome;

fn file(additions: usize, deletions: usize) -> FileDiff {
    FileDiff {
        id: "f0".into(),
        path: "a.ts".into(),
        old_path: "a.ts".into(),
        status: FileStatus::Modified,
        additions,
        deletions,
        binary: false,
        noise: false,
        language: None,
        truncated: false,
        hunks: Vec::new(),
    }
}

fn hunk(id: &str) -> Hunk {
    Hunk {
        id: id.into(),
        header: "@@ -1 +1 @@".into(),
        old_start: 1,
        old_count: 1,
        new_start: 1,
        new_count: 1,
        additions: 0,
        deletions: 0,
        lines: Vec::new(),
    }
}

fn chapter(id: &str, hunks: &[&str]) -> Chapter {
    Chapter {
        id: id.into(),
        title: id.to_uppercase(),
        intent: None,
        why: None,
        hunks: hunks.iter().map(|hunk| (*hunk).to_owned()).collect(),
        size: None,
        flags: None,
    }
}

#[test]
fn sums_the_totals_over_files() {
    let summed = totals(&[file(3, 1), file(0, 4)]);
    assert_eq!(summed.files, 2);
    assert_eq!(summed.additions, 3);
    assert_eq!(summed.deletions, 5);
}

#[test]
fn an_empty_diff_totals_zero() {
    assert_eq!(totals(&[]), Totals { files: 0, additions: 0, deletions: 0 });
}

#[test]
fn dates_the_slug_and_prefers_the_title() {
    assert_eq!(session_slug("2026-08-28", Some("Fix the SearchBar"), "main"), "2026-08-28-fix-the-searchbar");
    assert_eq!(session_slug("2026-08-28", None, "feat/x"), "2026-08-28-feat-x");
    assert_eq!(session_slug("2026-08-28", Some("!!!"), "main"), "2026-08-28-review");
}

#[test]
fn lists_chapter_references_to_missing_hunks_in_order() {
    let mut first = file(0, 0);
    first.hunks = vec![hunk("f0h0"), hunk("f0h1")];
    let mut second = file(0, 0);
    second.hunks = vec![hunk("f1h0")];
    let review = Review {
        title: None,
        story: None,
        chapters: vec![chapter("c1", &["f0h0", "f9h9", "f1h0"]), chapter("c2", &["gone", "f0h1"])],
        file_notes: None,
    };
    let stale = unknown_hunk_refs(&review, &[first, second]);
    assert_eq!(stale, vec![("c1".to_owned(), "f9h9".to_owned()), ("c2".to_owned(), "gone".to_owned())]);
}

#[test]
fn the_body_is_json_then_nothing_for_a_file_then_markdown() {
    let submitted = ReviewState {
        submitted: true,
        submitted_at: Some("2026-01-01T00:00:01Z".into()),
        overall: Overall { verdict: Some(Verdict::Fix), body: "one blocker".into() },
        ..ReviewState::default()
    };
    let report = report_for("# md\n".into(), Some("{}".into()), true, &submitted);
    assert_eq!(report.body, "{}\n");
    assert_eq!(report.outcome, Outcome::ChangesRequested);
    let report = report_for("# md\n".into(), None, true, &submitted);
    assert!(report.body.is_empty());
    let report = report_for("# md\n".into(), None, false, &ReviewState::default());
    assert_eq!(report.body, "# md\n");
    assert_eq!(report.outcome, Outcome::Abandoned);
}

#[test]
fn the_meta_title_falls_back_to_the_slug() {
    let meta = build_meta(
        "demo".into(),
        "/tmp/demo".into(),
        "2026-01-01-x".into(),
        None,
        Scope::Branch,
        "main".into(),
        "feature".into(),
        "git diff main...HEAD".into(),
        "2026-01-01T00:00:00Z".into(),
        Totals::default(),
    );
    assert_eq!(meta.title, "2026-01-01-x");
    assert_eq!(meta.slug, "2026-01-01-x");
}
