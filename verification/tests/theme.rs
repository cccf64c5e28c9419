use cairn::theme::{expand_home, parse_hex, theme_name, Color, Theme, ThemeConfig, UiConfig};

fn ui_field(table: &toml::Table, name: &str) -> Option<String> {
    table.get(name).and_then(|v| v.as_str()).map(|s| s.to_string())
}

/// Reads a theme file the way the application does, into the library's type.
fn theme_config(text: &str) -> ThemeConfig {
    let table: toml::Table = text.parse().unwrap();
    let mut colors: Vec<(String, String)> = Vec::new();
    if let Some(c) = table.get("colors").and_then(|v| v.as_table()) {
        for (k, v) in c {
            colors.push((k.clone(), v.as_str().unwrap().to_string()));
        }
    }
    let ui = table.get("ui").and_then(|v| v.as_table()).map(|u| UiConfig {
        background: ui_field(u, "background"),
        text: ui_field(u, "text"),
        text_dim: ui_field(u, "text_dim"),
        text_muted: ui_field(u, "text_muted"),
        author: ui_field(u, "author"),
        highlight: ui_field(u, "highlight"),
        link: ui_field(u, "link"),
        date: ui_field(u, "date"),
        border: ui_field(u, "border"),
        selection: ui_field(u, "selection"),
        cursor_bg: ui_field(u, "cursor_bg"),
        popup_bg: ui_field(u, "popup_bg"),
        popup_border: ui_field(u, "popup_border"),
        normal_bg: ui_field(u, "normal_bg"),
        insert_bg: ui_field(u, "insert_bg"),
        status_fg: ui_field(u, "status_fg"),
    });
    ThemeConfig { colors, ui }
}

fn resolve(config: &ThemeConfig) -> Theme {
    assert!(config.has_unique_names());
    assert!(config.is_resolvable());
    config.resolve(&Theme::default())
}

#[test]
fn shared_palette_names_fill_semantic_roles() {
    let config = theme_config(
        r##"
[colors]
bg = "#1a1b26"
fg = "#cdd6f4"
comment = "#6c7086"
mauve = "#cba6f7"
yellow = "#f9e2af"
blue = "#89b4fa"
green = "#a6e3a1"
surface1 = "#45475a"
mantle = "#181825"
crust = "#11111b"
"##,
    );
    let theme = resolve(&config);

    assert_eq!(theme.background, Color::Rgb(0x1a, 0x1b, 0x26));
    assert_eq!(theme.text, Color::Rgb(0xcd, 0xd6, 0xf4));
    assert_eq!(theme.author, Color::Rgb(0xcb, 0xa6, 0xf7));
    assert_eq!(theme.selection, Color::Rgb(0x45, 0x47, 0x5a));
    assert_eq!(theme.insert_bg, Color::Rgb(0xa6, 0xe3, 0xa1));
}

#[test]
fn cursor_background_takes_precedence_for_selection() {
    let config = theme_config(
        r##"
[colors]
blue = "#82aaff"
bg_highlight = "#2f334d"

[ui]
selection = "blue"
cursor_bg = "bg_highlight"
"##,
    );

    let theme = resolve(&config);
    assert_eq!(theme.selection, Color::Rgb(0x2f, 0x33, 0x4d));
}

#[test]
fn explicit_background_takes_precedence_over_shared_palette_name() {
    let config = theme_config(
        r##"
[colors]
bg = "#111111"
surface = "#222222"

[ui]
background = "surface"
"##,
    );

    let theme = resolve(&config);
    assert_eq!(theme.background, Color::Rgb(0x22, 0x22, 0x22));
}

#[test]
fn empty_theme_file_keeps_the_base_theme() {
    let config = theme_config("");
    let base = Theme { text: Color::Rgb(1, 2, 3), ..Theme::default() };
    assert!(config.is_resolvable());
    assert_eq!(config.resolve(&base), base);
}

#[test]
fn default_theme_is_the_terminal_colors() {
    let t = Theme::default();
    assert_eq!(t.background, Color::Reset);
    assert_eq!(t.status_fg, Color::Reset);
}

#[test]
fn unknown_name_and_bad_hex_fall_back() {
    let config = theme_config(
        r##"
[colors]
fg = "#zzzzzz"
text = "#010203"

[ui]
background = "nowhere"
"##,
    );
    let theme = resolve(&config);
    assert_eq!(theme.background, Color::Reset);
    assert_eq!(theme.text, Color::Rgb(1, 2, 3));
}

#[test]
fn hex_colors() {
    assert_eq!(parse_hex("#a6e3a1"), Some(Color::Rgb(0xa6, 0xe3, 0xa1)));
    assert_eq!(parse_hex("#A6E3A1"), Some(Color::Rgb(0xa6, 0xe3, 0xa1)));
    assert_eq!(parse_hex("a6e3a1"), None);
    assert_eq!(parse_hex("#a6e3a"), None);
    assert_eq!(parse_hex("#a6e3a1ff"), None);
    assert_eq!(parse_hex("#gg0000"), None);
}

#[test]
fn theme_names_and_home_expansion() {
    assert_eq!(theme_name("/themes/tokyo-night-moon.toml"), "tokyo night moon");
    assert_eq!(theme_name("/"), "theme");
    assert_eq!(expand_home("/home/u", "~/themes/a.toml"), "/home/u/themes/a.toml");
    assert_eq!(expand_home("/home/u", "/etc/a.toml"), "/etc/a.toml");
}

#[test]
fn palette_names_must_be_unique() {
    let pair = |a: &str, b: &str| (a.to_string(), b.to_string());
    let dup = ThemeConfig { colors: vec![pair("bg", "#111111"), pair("fg", "#222222"), pair("bg", "#333333")], ui: None };
    assert!(!dup.has_unique_names());
    let ok = ThemeConfig { colors: vec![pair("bg", "#111111"), pair("fg", "#222222")], ui: None };
    assert!(ok.has_unique_names());
    assert!(ThemeConfig { colors: vec![], ui: None }.has_unique_names());
}
