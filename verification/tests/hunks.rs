use diffpane::hunks::{
    assemble_file, assemble_files, decoded_path, func_context, line_cap, order_by_path, render_header, start_of,
    strip_terminator, with_context, Collector, Content, HunkHeader, LineKind,
};
use diffpane::changes::Change;
use diffpane::model::{FileStatus, LineType};

#[test]
fn drops_both_halves_of_a_crlf_terminator() {
    assert_eq!(strip_terminator(b"line\r\n"), b"line");
    assert_eq!(strip_terminator(b"line\n"), b"line");
    assert_eq!(strip_terminator(b"line"), b"line");
    // A lone \r mid-file is content, not a terminator.
    assert_eq!(strip_terminator(b"line\r"), b"line");
}

#[test]
fn reports_an_empty_side_at_the_line_before_the_hunk() {
    assert_eq!(start_of(1, 0), 0);
    assert_eq!(start_of(1, 6), 1);
    assert_eq!(start_of(0, 0), 0);
}

#[test]
fn omits_a_count_of_one_from_the_header() {
    let header = HunkHeader {
        before_hunk_start: 4,
        before_hunk_len: 1,
        after_hunk_start: 4,
        after_hunk_len: 3,
    };
    assert_eq!(render_header(header), "@@ -4 +4,3 @@");
}

#[test]
fn takes_func_context_from_the_nearest_qualifying_line_above() {
    let before: Vec<&[u8]> = vec![b"fn outer() {", b"  let x = 1;", b"  let y = 2;"];
    assert_eq!(func_context(&before, 3), Some("fn outer() {".to_string()));
    // Nothing above the first line qualifies.
    assert_eq!(func_context(&before, 1), None);
}

#[test]
fn clamps_func_context_to_eighty_bytes_and_right_trims() {
    let long = format!("fn {}   ", "a".repeat(120));
    let before: Vec<&[u8]> = vec![long.as_bytes(), b"body"];
    let context = func_context(&before, 2).expect("context");
    assert_eq!(context.len(), 80);
    assert!(!context.ends_with(' '));
}

#[test]
fn a_deleted_file_reports_zero_for_its_new_side() {
    let header = HunkHeader { before_hunk_start: 1, before_hunk_len: 6, after_hunk_start: 1, after_hunk_len: 0 };
    assert_eq!(render_header(header), "@@ -1,6 +0,0 @@");
}

#[test]
fn trailing_whitespace_and_vertical_tabs_are_trimmed() {
    let before: Vec<&[u8]> = vec![b"x", b"$   \x0b", b"  body"];
    assert_eq!(func_context(&before, 3), Some("$".to_string()));
    let before: Vec<&[u8]> = vec![b"_\t\t", b"  body"];
    assert_eq!(func_context(&before, 2), Some("_".to_string()));
}

#[test]
fn numbers_lines_from_the_header_and_counts_each_side() {
    let mut collector = Collector::new(100);
    let header = HunkHeader { before_hunk_start: 12, before_hunk_len: 2, after_hunk_start: 12, after_hunk_len: 2 };
    let lines: Vec<(LineKind, &[u8])> = vec![
        (LineKind::Context, b"  const k = key(q);\n"),
        (LineKind::Remove, b"  return map.get(k);\r\n"),
        (LineKind::Add, b"  const hit = map.get(k);\n"),
    ];
    collector.consume_hunk(header, &lines);
    let (hunks, truncated) = collector.finish();
    assert!(!truncated);
    assert_eq!(hunks.len(), 1);
    let hunk = &hunks[0];
    assert_eq!(hunk.header, "@@ -12,2 +12,2 @@");
    assert_eq!((hunk.additions, hunk.deletions), (1, 1));
    assert_eq!((hunk.lines[0].old, hunk.lines[0].new), (Some(12), Some(12)));
    assert_eq!((hunk.lines[1].old, hunk.lines[1].new), (Some(13), None));
    assert_eq!((hunk.lines[2].old, hunk.lines[2].new), (None, Some(13)));
    assert_eq!(hunk.lines[1].kind, LineType::Del);
    assert_eq!(hunk.lines[1].text, "  return map.get(k);");
    assert_eq!(hunk.lines[2].i, 2);
}

#[test]
fn stops_at_the_cap_and_marks_the_file_truncated() {
    let mut collector = Collector::new(2);
    let header = HunkHeader { before_hunk_start: 1, before_hunk_len: 3, after_hunk_start: 1, after_hunk_len: 3 };
    let lines: Vec<(LineKind, &[u8])> =
        vec![(LineKind::Context, b"a\n"), (LineKind::Context, b"b\n"), (LineKind::Context, b"c\n")];
    collector.consume_hunk(header, &lines);
    collector.consume_hunk(header, &lines);
    let (hunks, truncated) = collector.finish();
    assert!(truncated);
    assert_eq!(hunks.len(), 1);
    assert_eq!(hunks[0].lines.len(), 2);
}

#[test]
fn assembles_ids_language_and_noise() {
    let mut collector = Collector::new(10);
    let header = HunkHeader { before_hunk_start: 1, before_hunk_len: 1, after_hunk_start: 1, after_hunk_len: 1 };
    let lines: Vec<(LineKind, &[u8])> = vec![(LineKind::Remove, b"a\n"), (LineKind::Add, b"b\n")];
    collector.consume_hunk(header, &lines);
    collector.consume_hunk(header, &lines);
    let (hunks, truncated) = collector.finish();
    let content = Content { hunks, additions: 2, deletions: 2, truncated, binary: false };
    let file = assemble_file(3, b"dist/app.min.js", Some(b"old.js"), FileStatus::Renamed, content);
    assert_eq!(file.id, "f3");
    assert_eq!(file.hunks[0].id, "f3h0");
    assert_eq!(file.hunks[1].id, "f3h1");
    assert_eq!(file.old_path, "old.js");
    assert_eq!(file.language.as_deref(), Some("javascript"));
    assert!(file.noise);
    let binary = assemble_file(0, b"logo.png", None, FileStatus::Added, Content::empty(true));
    assert!(binary.binary && binary.hunks.is_empty());
    assert_eq!(binary.old_path, "logo.png");
    assert_eq!(binary.language, None);
}

#[test]
fn caps_noise_files_tighter() {
    assert_eq!(line_cap("Cargo.lock"), 40);
    assert_eq!(line_cap("src/main.rs"), 2000);
    assert_eq!(decoded_path(b"caf\xc3\xa9.rs"), "café.rs");
    assert_eq!(decoded_path(b"bad\xff.rs"), "bad\u{fffd}.rs");
}

#[test]
fn orders_paths_bytewise_and_keeps_ties_in_place() {
    let paths: Vec<Vec<u8>> = vec![b"b".to_vec(), b"a/z".to_vec(), b"B".to_vec(), b"a".to_vec(), b"b".to_vec()];
    assert_eq!(order_by_path(&paths), vec![2, 3, 1, 0, 4]);
}

#[test]
fn appends_the_function_context_to_headers() {
    let mut collector = Collector::new(10);
    let header = HunkHeader { before_hunk_start: 3, before_hunk_len: 1, after_hunk_start: 3, after_hunk_len: 1 };
    let lines: Vec<(LineKind, &[u8])> = vec![(LineKind::Remove, b"x\n"), (LineKind::Add, b"y\n")];
    collector.consume_hunk(header, &lines);
    let (hunks, _) = collector.finish();
    let before: Vec<&[u8]> = vec![b"fn main() {\n", b"  let a = 1;\n", b"x\n"];
    let hunks = with_context(hunks, &before);
    assert_eq!(hunks[0].header, "@@ -3 +3 @@ fn main() {");
}

#[test]
fn function_context_decodes_invalid_bytes_lossily() {
    let before: Vec<&[u8]> = vec![b"fn caf\xc3\xa9(\xff) {", b"  body"];
    assert_eq!(func_context(&before, 2), Some("fn caf\u{e9}(\u{fffd}) {".to_string()));
}

#[test]
fn the_file_list_follows_path_order_with_positional_ids() {
    let change = |path: &str, old: Option<&str>, status: FileStatus| Change {
        path: path.as_bytes().to_vec(),
        old_path: old.map(|o| o.as_bytes().to_vec()),
        status,
        old: None,
        new: None,
    };
    let changes = vec![
        change("src/z.rs", None, FileStatus::Modified),
        change("README.md", None, FileStatus::Added),
        change("src/a.py", Some("src/old.py"), FileStatus::Renamed),
    ];
    let order = order_by_path(&changes.iter().map(|c| c.path.clone()).collect());
    assert_eq!(order, vec![1, 2, 0]);
    let mut collector = Collector::new(10);
    let header = HunkHeader { before_hunk_start: 1, before_hunk_len: 1, after_hunk_start: 1, after_hunk_len: 1 };
    let lines: Vec<(LineKind, &[u8])> = vec![(LineKind::Remove, b"a\n"), (LineKind::Add, b"b\n")];
    collector.consume_hunk(header, &lines);
    let (hunks, truncated) = collector.finish();
    let contents = vec![
        Content::empty(false),
        Content { hunks, additions: 1, deletions: 1, truncated, binary: false },
        Content::empty(true),
    ];
    let files = assemble_files(&changes, &order, contents);
    let ids: Vec<&str> = files.iter().map(|f| f.id.as_str()).collect();
    let paths: Vec<&str> = files.iter().map(|f| f.path.as_str()).collect();
    assert_eq!(ids, vec!["f0", "f1", "f2"]);
    assert_eq!(paths, vec!["README.md", "src/a.py", "src/z.rs"]);
    assert_eq!(files[1].old_path, "src/old.py");
    assert_eq!(files[1].hunks[0].id, "f1h0");
    assert_eq!(files[1].language.as_deref(), Some("python"));
    assert!(files[2].binary && files[2].hunks.is_empty());
    assert_eq!(files[0].old_path, "README.md");
}
