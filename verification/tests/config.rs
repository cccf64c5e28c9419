use cairn::config::{config_dir, config_dir_candidates, Config};

fn some(s: &str) -> Option<String> {
    Some(s.to_string())
}

#[test]
fn editor_and_browser_defaults() {
    let empty = Config::empty();
    assert_eq!(empty.editor(&None), "vi");
    assert_eq!(empty.editor(&some("nano")), "nano");
    assert_eq!(empty.browser(&None), "open");
    assert_eq!(empty.browser(&some("firefox")), "firefox");
    let set = Config {
        library: None,
        editor: some("hx"),
        browser: some("w3m"),
        theme: None,
        layout: None,
    };
    assert_eq!(set.editor(&some("nano")), "hx");
    assert_eq!(set.browser(&some("firefox")), "w3m");
}

#[test]
fn library_directory() {
    let empty = Config::empty();
    assert_eq!(empty.library_dir(&None, &some("/home/u")), "/home/u/Bookmarks");
    assert_eq!(empty.library_dir(&None, &None), "./Bookmarks");
    assert_eq!(empty.library_dir(&some("/env/lib"), &some("/home/u")), "/env/lib");
    let set = Config {
        library: some("~/Notes/links"),
        editor: None,
        browser: None,
        theme: None,
        layout: None,
    };
    assert_eq!(set.library_dir(&None, &some("/home/u")), "/home/u/Notes/links");
    assert_eq!(set.library_dir(&some("/x"), &some("/home/u")), "/x");
    assert_eq!(Config::config_path("/home/u/.config/cairn"), "/home/u/.config/cairn/config.toml");
}

#[test]
fn library_tilde_forms() {
    let with = |l: &str| Config {
        library: some(l),
        editor: None,
        browser: None,
        theme: None,
        layout: None,
    };
    assert_eq!(with("~").library_dir(&None, &some("/home/u")), "/home/u");
    assert_eq!(with("~other/x").library_dir(&None, &some("/home/u")), "~other/x");
    assert_eq!(with("~/x").library_dir(&None, &None), "~/x");
    let back = with("~\\x").library_dir(&None, &some("/home/u"));
    assert!(back == "~\\x" || back == "/home/u\\x");
}

#[test]
fn configuration_directory_candidates() {
    assert_eq!(
        config_dir_candidates(&some("/xdg"), &some("/home/u"), &some("/home/u/.config")),
        vec!["/xdg/cairn".to_string(), "/home/u/.config/cairn".to_string()]
    );
    assert_eq!(
        config_dir_candidates(&None, &some("/home/u"), &some("/home/u/Library/Application Support")),
        vec![
            "/home/u/.config/cairn".to_string(),
            "/home/u/Library/Application Support/cairn".to_string()
        ]
    );
    assert!(config_dir_candidates(&None, &None, &None).is_empty());
}

#[test]
fn configuration_directory_choice() {
    let c = vec!["/a".to_string(), "/b".to_string()];
    assert_eq!(config_dir(&c, &vec![false, true]), "/b");
    assert_eq!(config_dir(&c, &vec![false, false]), "/a");
    assert_eq!(config_dir(&Vec::new(), &Vec::new()), ".");
}
