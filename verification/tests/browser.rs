use diffpane::browser::{launcher, Platform};

#[test]
fn each_platform_has_its_launcher() {
    assert_eq!(launcher(Platform::MacOs), ("open", vec![]));
    assert_eq!(launcher(Platform::Windows), ("cmd", vec!["/c", "start", ""]));
    assert_eq!(launcher(Platform::Other), ("xdg-open", vec![]));
}
