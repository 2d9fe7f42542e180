use diffpane::args::{parse, positive_int, read_number, Options, Parsed, DEFAULT_PORT, DEFAULT_TIMEOUT_SECONDS, USAGE};
use diffpane::model::Scope;

fn parse_args(args: &[&str]) -> Result<Parsed, String> {
    parse(args.iter().map(|arg| (*arg).to_owned()).collect())
}

fn options(args: &[&str]) -> Options {
    match parse_args(args).unwrap() {
        Parsed::Options(options) => *options,
        other => panic!("expected options, got {other:?}"),
    }
}

#[test]
fn defaults_to_the_branch_scope() {
    let parsed = options(&[]);
    assert_eq!(parsed.scope, Scope::Branch);
    assert_eq!(parsed.port, DEFAULT_PORT);
    assert_eq!(parsed.timeout_seconds, DEFAULT_TIMEOUT_SECONDS);
    assert!(parsed.should_open);
    assert!(!parsed.as_json);
}

#[test]
fn selects_each_scope() {
    assert_eq!(options(&["--working"]).scope, Scope::Working);
    assert_eq!(options(&["--staged"]).scope, Scope::Staged);
    assert_eq!(options(&["--range", "a..b"]).scope, Scope::Range);
    assert_eq!(options(&["--commit", "abc123"]).scope, Scope::Commit);
    assert_eq!(options(&["--base", "origin/main"]).scope, Scope::Branch);
}

#[test]
fn refuses_two_scopes() {
    let error = parse_args(&["--working", "--staged"]).unwrap_err().to_string();
    assert_eq!(error, "pick one scope, not --working and --staged");
}

#[test]
fn reads_values_inline_or_separated() {
    assert_eq!(options(&["--title=Fix the parser"]).title.as_deref(), Some("Fix the parser"));
    assert_eq!(options(&["--title", "Fix the parser"]).title.as_deref(), Some("Fix the parser"));
    assert_eq!(options(&["--port=9000"]).port, 9000);
}

#[test]
fn collects_pathspecs_before_and_after_the_separator() {
    assert_eq!(options(&["src/a.ts"]).paths, ["src/a.ts"]);
    assert_eq!(options(&["--", "src/a.ts", "ui/"]).paths, ["src/a.ts", "ui/"]);
    assert_eq!(options(&["src/a.ts", "--", "ui/"]).paths, ["src/a.ts", "ui/"]);
    assert_eq!(options(&["--", "--weird-file"]).paths, ["--weird-file"]);
}

#[test]
fn rejects_bad_numbers() {
    assert!(parse_args(&["--port", "nope"]).is_err());
    assert!(parse_args(&["--timeout", "-1"]).is_err());
    assert!(parse_args(&["--port", "70000"]).is_err());
    assert_eq!(options(&["--timeout", "0"]).timeout_seconds, 0);
    assert_eq!(options(&["--timeout", "1.9"]).timeout_seconds, 1);
}

#[test]
fn rejects_unknown_options_and_missing_values() {
    assert!(parse_args(&["--nonsense"]).is_err());
    assert!(parse_args(&["--base"]).is_err());
}

#[test]
fn a_bare_double_dash_never_carries_an_inline_value() {
    assert_eq!(parse_args(&["--=x"]).unwrap_err().to_string(), "unknown option: --=x");
    assert_eq!(options(&["--", "x"]).paths, ["x"]);
}

#[test]
fn install_skill_refuses_the_options_it_would_ignore() {
    let error = parse_args(&["--install-skill", "--working"]).unwrap_err().to_string();
    assert_eq!(error, "--install-skill takes no options but --skill-dir");
    assert!(parse_args(&["--install-skill", "--port", "9000"]).is_err());
    assert!(parse_args(&["--install-skill", "src/a.ts"]).is_err());
}

#[test]
fn help_and_version_win_over_everything_else() {
    assert_eq!(parse_args(&["--working", "-h"]).unwrap(), Parsed::Help);
    assert_eq!(parse_args(&["--version"]).unwrap(), Parsed::Version);
}

#[test]
fn install_skill_takes_an_optional_directory() {
    assert_eq!(parse_args(&["--install-skill"]).unwrap(), Parsed::InstallSkill { skill_dir: None });
    assert_eq!(
        parse_args(&["--install-skill", "--skill-dir", "/tmp/skills"]).unwrap(),
        Parsed::InstallSkill { skill_dir: Some("/tmp/skills".to_owned()) }
    );
}

#[test]
fn documents_every_flag_it_parses() {
    for flag in [
        "--base",
        "--working",
        "--staged",
        "--range",
        "--commit",
        "--title",
        "--review",
        "--out",
        "--json",
        "--port",
        "--no-open",
        "--timeout",
        "--install-skill",
        "--skill-dir",
    ] {
        assert!(USAGE.contains(flag), "{flag} is undocumented");
    }
}

#[test]
fn reads_numbers_as_whole_saturated_values() {
    assert_eq!(read_number("42"), Some(42));
    assert_eq!(read_number("+7.25"), Some(7));
    assert_eq!(read_number("-0"), Some(0));
    assert_eq!(read_number(".5"), Some(0));
    assert_eq!(read_number("3."), Some(3));
    assert_eq!(read_number("99999999999999999999999"), Some(u64::MAX));
    assert_eq!(read_number(""), None);
    assert_eq!(read_number("."), None);
    assert_eq!(read_number("1.2.3"), None);
    assert_eq!(read_number("-2"), None);
    assert_eq!(read_number("0x10"), None);
}

#[test]
fn reads_exponents_the_way_a_float_literal_writes_them() {
    assert_eq!(read_number("1e3"), Some(1000));
    assert_eq!(read_number("1.5E1"), Some(15));
    assert_eq!(read_number("25e-1"), Some(2));
    assert_eq!(read_number("2e-1"), Some(0));
    assert_eq!(read_number("1.e1"), Some(10));
    assert_eq!(read_number("+1e+2"), Some(100));
    assert_eq!(read_number("-0e5"), Some(0));
    assert_eq!(read_number("1e25"), Some(u64::MAX));
    assert_eq!(read_number("0e99999999999999999999999"), Some(0));
    assert_eq!(read_number("7e99999999999999999999999"), Some(u64::MAX));
    assert_eq!(read_number("7e-99999999999999999999999"), Some(0));
    assert_eq!(read_number("1e"), None);
    assert_eq!(read_number("e5"), None);
    assert_eq!(read_number("1e+-2"), None);
    assert_eq!(read_number("1e5.3"), None);
    assert_eq!(read_number("-1e3"), None);
    assert_eq!(read_number("inf"), None);
    assert_eq!(options(&["--timeout", "1e3"]).timeout_seconds, 1000);
}

#[test]
fn names_the_flag_in_a_number_error() {
    assert_eq!(positive_int("12", "port"), Ok(12));
    assert_eq!(positive_int("x", "timeout"), Err("--timeout must be a number >= 0".to_owned()));
}

#[test]
fn reports_the_port_range_and_missing_values_by_name() {
    assert_eq!(parse_args(&["--port", "70000"]).unwrap_err(), "--port must be a number between 0 and 65535");
    assert_eq!(parse_args(&["--base"]).unwrap_err(), "--base needs a value");
    assert_eq!(parse_args(&["--nonsense"]).unwrap_err(), "unknown option: --nonsense");
    assert_eq!(
        parse_args(&["--working", "--range", "a..b", "--commit=c"]).unwrap_err(),
        "pick one scope, not --working and --range and --commit"
    );
}

#[test]
fn sets_each_option_it_reads() {
    let parsed = options(&[
        "--base", "main", "--title", "T", "--review=r.json", "--out", "o.md", "--json", "--no-open",
        "--timeout", "0", "--port", "0",
    ]);
    assert_eq!(parsed.base.as_deref(), Some("main"));
    assert_eq!(parsed.title.as_deref(), Some("T"));
    assert_eq!(parsed.review_file.as_deref(), Some("r.json"));
    assert_eq!(parsed.out_file.as_deref(), Some("o.md"));
    assert!(parsed.as_json);
    assert!(!parsed.should_open);
    assert_eq!(parsed.timeout_seconds, 0);
    assert_eq!(parsed.port, 0);
}
