use diffpane::classify::{is_noise, language_of};

#[test]
fn flags_lockfiles_and_generated_output_as_noise() {
    for path in [
        "pnpm-lock.yaml",
        "apps/web/package-lock.json",
        "go.sum",
        "dist/bundle.js",
        "src/__snapshots__/a.snap",
        "src/vendor/lib.js",
        "a/b/thing.generated.ts",
        "web/app.min.js",
    ] {
        assert!(is_noise(path), "{path}");
    }
}

#[test]
fn leaves_ordinary_source_alone() {
    for path in ["src/index.ts", "lib/dist-helper.ts", "README.md", "src/build-config.ts"] {
        assert!(!is_noise(path), "{path}");
    }
}

#[test]
fn maps_extensions_to_languages() {
    assert_eq!(language_of("src/a.ts"), Some("typescript"));
    assert_eq!(language_of("src/a.TSX"), Some("tsx"));
    assert_eq!(language_of("deploy/Dockerfile"), Some("dockerfile"));
    assert_eq!(language_of("deploy/Dockerfile.prod"), Some("dockerfile"));
    assert_eq!(language_of("Makefile"), None);
    assert_eq!(language_of("a/b/thing.unknownext"), None);
}

#[test]
fn a_file_named_like_a_noise_directory_is_not_noise() {
    assert!(!is_noise("src/dist"));
    assert!(is_noise("a/node_modules/b/c.js"));
    assert!(is_noise("x/y.lock"));
}

#[test]
fn a_name_without_a_dot_has_no_language_and_the_first_entry_wins() {
    assert_eq!(language_of("src/ts"), None);
    assert_eq!(language_of("a.b/c.H"), Some("c"));
    assert_eq!(language_of("dockerfile"), Some("dockerfile"));
}

#[test]
fn only_the_file_name_picks_the_language_whatever_its_case() {
    assert_eq!(language_of("deep/dir/main.rs"), language_of("main.rs"));
    assert_eq!(language_of("other/MAIN.RS"), language_of("main.rs"));
    assert_eq!(language_of("main.rs"), Some("rust"));
    assert_eq!(language_of("x.py/Makefile"), None);
    assert_eq!(language_of("ops/DOCKERFILE.prod"), Some("dockerfile"));
}
