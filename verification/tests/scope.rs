use diffpane::scope::{choose_base, label_of, parent_revision, symbolic_label, commit_plan, diff_command_line, parse_range, branch_plan, Plan, Range, EMPTY_TREE};

fn range(left: &str, right: &str, symmetric: bool) -> Range {
    Range { left: left.to_owned(), right: right.to_owned(), symmetric }
}

fn strings(items: &[&str]) -> Vec<String> {
    items.iter().map(|item| (*item).to_owned()).collect()
}

#[test]
fn splits_both_range_forms() {
    assert_eq!(parse_range("a..b").unwrap(), range("a", "b", false));
    assert_eq!(parse_range("a...b").unwrap(), range("a", "b", true));
}

#[test]
fn fills_an_omitted_side_with_head() {
    assert_eq!(parse_range("..b").unwrap(), range("HEAD", "b", false));
    assert_eq!(parse_range("a...").unwrap(), range("a", "HEAD", true));
}

#[test]
fn rejects_a_bare_rev() {
    assert!(parse_range("HEAD").is_err());
    assert!(parse_range("a..b..c").is_err());
}

#[test]
fn names_the_spec_in_a_range_error() {
    assert_eq!(parse_range("HEAD").unwrap_err(), "--range needs a..b or a...b, got HEAD");
    assert_eq!(parse_range("a..b..c").unwrap_err(), "--range takes one range, got a..b..c");
    assert_eq!(parse_range("...").unwrap(), range("HEAD", "HEAD", true));
}

#[test]
fn spells_the_diff_command_with_its_pathspecs() {
    assert_eq!(diff_command_line(&strings(&[]), &strings(&[])), "git diff");
    assert_eq!(diff_command_line(&strings(&["--cached"]), &strings(&[])), "git diff --cached");
    assert_eq!(
        diff_command_line(&strings(&["main...HEAD"]), &strings(&["src/a.ts", "ui/"])),
        "git diff main...HEAD -- src/a.ts ui/"
    );
    assert_eq!(diff_command_line(&strings(&[]), &strings(&["x"])), "git diff -- x");
}

#[test]
fn a_root_commit_diffs_against_the_empty_tree() {
    let (plan, label, args) = commit_plan("abc", None);
    assert_eq!(plan, Plan::Trees { base: EMPTY_TREE.to_owned(), head: "abc".to_owned() });
    assert_eq!(label, "abc");
    assert_eq!(args, strings(&[EMPTY_TREE, "abc"]));
    let (plan, _, args) = commit_plan("abc", Some("p1".to_owned()));
    assert_eq!(plan, Plan::Trees { base: "p1".to_owned(), head: "abc".to_owned() });
    assert_eq!(args, strings(&["p1", "abc"]));
}

#[test]
fn a_branch_review_shows_the_three_dot_form() {
    let (plan, label, args) = branch_plan("origin/main".to_owned(), "m1".to_owned());
    assert_eq!(plan, Plan::Trees { base: "m1".to_owned(), head: "HEAD".to_owned() });
    assert_eq!(label, "origin/main");
    assert_eq!(args, strings(&["origin/main...HEAD"]));
}

#[test]
fn the_head_label_is_the_branch_or_head_itself() {
    assert_eq!(label_of(Some("main".to_owned())), "main");
    assert_eq!(label_of(None), "HEAD");
}

#[test]
fn a_symbolic_candidate_is_reported_by_its_target() {
    assert_eq!(symbolic_label("origin/HEAD", Some("origin/main".to_owned())), "origin/main");
    assert_eq!(symbolic_label("main", None), "main");
}

#[test]
fn the_base_is_the_tracking_branch_else_the_first_candidate_that_exists() {
    let resolved = |names: &[&str]| names.iter().map(|n| n.to_string()).collect::<Vec<String>>();
    assert_eq!(choose_base(Some("origin/dev".to_owned()), &vec![], vec![]).unwrap(), "origin/dev");
    assert_eq!(
        choose_base(None, &vec![false, true, true], resolved(&["origin/HEAD", "origin/main", "origin/master"])).unwrap(),
        "origin/main"
    );
    assert_eq!(choose_base(None, &vec![true], resolved(&["origin/main"])).unwrap(), "origin/main");
    assert_eq!(
        choose_base(None, &vec![false, false], resolved(&["a", "b"])).unwrap_err(),
        "could not infer a base ref; pass --base"
    );
}

#[test]
fn a_commit_is_diffed_against_its_first_parent() {
    assert_eq!(parent_revision("abc123"), "abc123^");
}
