use diffpane::session::{attempt_slug, fingerprint, hex, name_directory, slugify, SLUG_MAX};

#[test]
fn slugifies_like_the_typescript() {
    assert_eq!(slugify("Fix the SearchBar"), "fix-the-searchbar");
    assert_eq!(slugify("feat/scix-123_thing"), "feat-scix-123-thing");
    assert_eq!(slugify("--wrapped--"), "wrapped");
    assert_eq!(slugify("!!!"), "review");
    assert_eq!(slugify(""), "review");
}

#[test]
fn caps_the_slug_at_48_characters() {
    let slug = slugify(&"a".repeat(60));
    assert_eq!(slug.len(), SLUG_MAX);
}

#[test]
fn hashes_the_repo_root_into_the_directory_name() {
    assert_eq!(fingerprint("/home/tim/code/diffpane"), "diffpane-2541a5e3");
    assert_ne!(fingerprint("/tmp/diffpane"), "diffpane-2541a5e3");
}

#[test]
fn a_cap_can_leave_a_trailing_dash_and_non_ascii_folds_away() {
    let title = format!("{}-b", "a".repeat(47));
    assert_eq!(slugify(&title), format!("{}-", "a".repeat(47)));
    assert_eq!(slugify("Grüße an Ärger"), "gr-e-an-rger");
}

#[test]
fn hex_spells_each_byte_in_two_lower_case_digits() {
    assert_eq!(hex(&[0x00, 0x0f, 0xa5, 0xff]), "000fa5ff");
    assert_eq!(hex(&[]), "");
}

#[test]
fn the_directory_name_falls_back_to_the_whole_path() {
    assert_eq!(name_directory("/home/tim/code/diffpane", Some("diffpane".to_owned())), "diffpane-2541a5e3");
    let whole = name_directory("/", None);
    assert!(whole.starts_with("/-"));
    assert_eq!(whole.len(), 10);
}

#[test]
fn later_attempts_number_the_slug() {
    assert_eq!(attempt_slug("2026-08-28-x", 1), "2026-08-28-x");
    assert_eq!(attempt_slug("2026-08-28-x", 2), "2026-08-28-x-2");
    assert_eq!(attempt_slug("x", 20), "x-20");
}

#[test]
fn the_session_name_starts_with_the_last_path_component() {
    let name = fingerprint("/srv/work/my-repo");
    assert!(name.starts_with("my-repo-"));
    assert_eq!(name.len(), "my-repo-".len() + 8);
}
