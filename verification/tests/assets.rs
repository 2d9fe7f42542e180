use diffpane::assets::{Assets, Source, EMBEDDED};
use diffpane::skill::{Installed, SKILL, SKILL_DIR_NAME, SKILL_FILE_NAME};
use diffpane::wait::{times_out, Ending};

#[test]
fn the_override_only_counts_when_it_says_something() {
    assert!(matches!(Assets::from_override(Some("/tmp/diffpane-ui")), Assets::Dir(dir) if dir == "/tmp/diffpane-ui"));
    assert!(matches!(Assets::from_override(Some("")), Assets::Embedded));
    assert!(matches!(Assets::from_override(None), Assets::Embedded));
}

#[test]
fn the_embedded_set_names_the_page_and_not_the_browser_suite() {
    assert_eq!(Assets::Embedded.locate("index.html"), Source::Embedded(0));
    assert_eq!(Assets::Embedded.locate("apple-touch-icon.png"), Source::Embedded(7));
    assert_eq!(Assets::Embedded.locate("smoke.test.ts"), Source::Missing);
    assert_eq!(Assets::Embedded.locate(""), Source::Missing);
    assert_eq!(EMBEDDED.len(), 8);
}

#[test]
fn a_directory_is_asked_for_the_name_unless_it_is_empty() {
    let assets = Assets::Dir("/srv/ui".to_owned());
    assert_eq!(
        assets.locate("app.css"),
        Source::UnderDir { dir: "/srv/ui".to_owned(), name: "app.css".to_owned() }
    );
    assert_eq!(assets.locate(""), Source::Missing);
}

#[test]
fn the_packaged_skill_is_a_real_loadable_skill_file() {
    assert!(SKILL.starts_with("---\n"), "skill needs YAML frontmatter");
    assert!(SKILL.lines().any(|line| line == "name: diffpane"));
    assert!(SKILL.lines().any(|line| line == "user-invocable: true"));
    let description = SKILL
        .lines()
        .find(|line| line.starts_with("description: "))
        .expect("skill needs a description");
    assert!(description.len() > 52, "description carries the trigger phrasing");
}

#[test]
fn the_skill_lands_in_its_own_directory() {
    assert_eq!(SKILL_DIR_NAME, "diffpane");
    assert_eq!(SKILL_FILE_NAME, "SKILL.md");
    let installed = Installed { path: "/x/diffpane/SKILL.md".to_owned(), replaced: false };
    assert!(!installed.replaced);
}

#[test]
fn only_a_nonzero_timeout_fires() {
    assert!(!times_out(0));
    assert!(times_out(3600));
    assert_ne!(Ending::Submitted, Ending::Timeout);
}

#[test]
fn the_browser_suite_is_not_in_the_compiled_in_set() {
    assert_eq!(Assets::Embedded.locate("smoke.test.ts"), Source::Missing);
    assert_eq!(Assets::Embedded.locate("app.css"), Source::Embedded(1));
}

#[test]
fn a_directory_is_asked_for_the_name_and_an_empty_name_is_missing() {
    let assets = Assets::Dir("/srv/ui".to_string());
    assert_eq!(
        assets.locate("app.css"),
        Source::UnderDir { dir: "/srv/ui".to_string(), name: "app.css".to_string() }
    );
    assert_eq!(assets.locate(""), Source::Missing);
    assert_eq!(Assets::Embedded.locate(""), Source::Missing);
}
