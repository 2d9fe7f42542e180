use diffpane::hunks::{Content, HunkHeader, LineKind};
use diffpane::model::LineType;
use diffpane::unified::{content_from_diff, diff_content, read_unified, split_lines};

fn accepted(outcome: Result<Content, String>) -> Content {
    match outcome {
        Ok(content) => content,
        Err(message) => panic!("{message}"),
    }
}

fn refused(outcome: Result<Content, String>) -> String {
    match outcome {
        Err(message) => message,
        Ok(_) => panic!("expected an error"),
    }
}

#[test]
fn lines_keep_their_terminators() {
    let lines = split_lines(b"a\nb\r\n\nc");
    let expected: Vec<&[u8]> = vec![&b"a\n"[..], &b"b\r\n"[..], &b"\n"[..], &b"c"[..]];
    assert_eq!(lines, expected);
    assert!(split_lines(b"").is_empty());
    let closed: Vec<&[u8]> = vec![&b"x\n"[..]];
    assert_eq!(split_lines(b"x\n"), closed);
}

#[test]
fn unified_text_reads_back_into_hunks() {
    let hunks = read_unified(b"@@ -1,2 +1,2 @@\n a\n-b\n+c\n@@ -10,0 +11,1 @@\n+d\n").unwrap();
    assert_eq!(hunks.len(), 2);
    assert_eq!(
        hunks[0].header,
        HunkHeader { before_hunk_start: 1, before_hunk_len: 2, after_hunk_start: 1, after_hunk_len: 2 }
    );
    assert_eq!(
        hunks[0].lines,
        vec![(LineKind::Context, b"a\n".to_vec()), (LineKind::Remove, b"b\n".to_vec()), (LineKind::Add, b"c\n".to_vec())]
    );
    assert_eq!(hunks[1].header.before_hunk_start, 10);
    assert_eq!(hunks[1].header.after_hunk_len, 1);
    assert_eq!(hunks[1].lines, vec![(LineKind::Add, b"d\n".to_vec())]);
    assert!(read_unified(b"").unwrap().is_empty());
}

#[test]
fn text_that_is_no_unified_diff_is_refused() {
    assert!(read_unified(b" a\n").is_none());
    assert!(read_unified(b"@@ -1,2 +1,2 @@\nxa\n").is_none());
    assert!(read_unified(b"@@ -1,2 +1 @@\n a\n").is_none());
    assert!(read_unified(b"@@ -1,2 +1,99999999999 @@\n a\n").is_none());
    let err = refused(content_from_diff(b"garbage\n", 0, 0, b"", 2000));
    assert_eq!(err, "the diff is not a unified diff");
}

#[test]
fn hunk_line_numbers_past_u32_are_refused() {
    let err = refused(content_from_diff(b"@@ -4294967295,1 +1,1 @@\n a\n", 0, 0, b"a\n", 2000));
    assert_eq!(err, "hunk line numbers overflow");
}

#[test]
fn a_hunk_past_the_old_file_is_refused() {
    let err = refused(content_from_diff(b"@@ -10,1 +10,1 @@\n a\n", 0, 0, b"x\n", 2000));
    assert_eq!(err, "a hunk starts past the end of the old file");
}

#[test]
fn content_numbers_the_lines_and_keeps_the_counts() {
    let content = accepted(content_from_diff(b"@@ -1,2 +1,2 @@\n a\n-b\n+c\n", 7, 5, b"a\nb\n", 2000));
    assert_eq!(content.additions, 7);
    assert_eq!(content.deletions, 5);
    assert!(!content.truncated);
    assert!(!content.binary);
    assert_eq!(content.hunks.len(), 1);
    let hunk = &content.hunks[0];
    assert_eq!(hunk.header, "@@ -1,2 +1,2 @@");
    assert_eq!((hunk.old_start, hunk.old_count, hunk.new_start, hunk.new_count), (1, 2, 1, 2));
    assert_eq!((hunk.additions, hunk.deletions), (1, 1));
    let lines: Vec<(LineType, Option<u32>, Option<u32>, &str)> =
        hunk.lines.iter().map(|line| (line.kind.clone(), line.old, line.new, line.text.as_str())).collect();
    assert_eq!(
        lines,
        vec![
            (LineType::Context, Some(1), Some(1), "a"),
            (LineType::Del, Some(2), None, "b"),
            (LineType::Add, None, Some(2), "c"),
        ]
    );
}

#[test]
fn the_cap_cuts_lines_and_drops_later_hunks() {
    let text = b"@@ -1,2 +1,2 @@\n a\n-b\n+c\n@@ -8,1 +8,1 @@\n-x\n+y\n";
    let old = b"a\nb\n3\n4\n5\n6\n7\nx\n";
    let content = accepted(content_from_diff(text, 2, 2, old, 2));
    assert!(content.truncated);
    assert_eq!(content.hunks.len(), 1);
    assert_eq!(content.hunks[0].lines.len(), 2);
    assert_eq!(content.additions, 2);
    let content = accepted(content_from_diff(text, 2, 2, old, 2000));
    assert!(!content.truncated);
    assert_eq!(content.hunks.len(), 2);
}

#[test]
fn a_function_line_above_the_hunk_joins_its_header() {
    let old = b"fn main() {\n    1\n    2\n    3\n    4\n    5\n}\n";
    let text = b"@@ -4,3 +4,3 @@\n     3\n-    4\n+    9\n     5\n";
    let content = accepted(content_from_diff(text, 1, 1, old, 2000));
    assert_eq!(content.hunks[0].header, "@@ -4,3 +4,3 @@ fn main() {");
}

#[test]
fn blobs_are_diffed_as_git_does() {
    let content = accepted(diff_content(b"a\nb\nc\n", b"a\nB\nc\n", 2000));
    assert_eq!(content.additions, 1);
    assert_eq!(content.deletions, 1);
    assert_eq!(content.hunks.len(), 1);
    let hunk = &content.hunks[0];
    assert_eq!(hunk.header, "@@ -1,3 +1,3 @@");
    let texts: Vec<&str> = hunk.lines.iter().map(|line| line.text.as_str()).collect();
    assert_eq!(texts, vec!["a", "b", "B", "c"]);
    assert_eq!(hunk.lines[1].kind, LineType::Del);
    assert_eq!(hunk.lines[2].kind, LineType::Add);
}

#[test]
fn a_new_final_newline_shows_as_a_change() {
    let content = accepted(diff_content(b"a", b"a\n", 2000));
    assert_eq!(content.additions, 1);
    assert_eq!(content.deletions, 1);
    assert_eq!(content.hunks.len(), 1);
}

#[test]
fn whole_file_counts_outlast_the_cap() {
    let old = b"1\n2\n3\n4\n5\n";
    let new = b"one\ntwo\nthree\nfour\nfive\n";
    let content = accepted(diff_content(old, new, 3));
    assert_eq!(content.additions, 5);
    assert_eq!(content.deletions, 5);
    assert!(content.truncated);
    assert_eq!(content.hunks[0].lines.len(), 3);
}

#[test]
fn identical_blobs_have_no_hunks() {
    let content = accepted(diff_content(b"same\n", b"same\n", 2000));
    assert!(content.hunks.is_empty());
    assert_eq!((content.additions, content.deletions), (0, 0));
}

#[test]
fn the_cap_changes_neither_success_nor_the_counts() {
    let old = b"1\n2\n3\n4\n5\n6\n7\n8\n9\n10\n";
    let new = b"one\n2\n3\n4\n5\n6\n7\n8\n9\nten\n";
    let small = accepted(diff_content(old, new, 1));
    let large = accepted(diff_content(old, new, 2000));
    assert_eq!((small.additions, small.deletions), (2, 2));
    assert_eq!((large.additions, large.deletions), (2, 2));
    assert!(small.truncated && !large.truncated);
}
