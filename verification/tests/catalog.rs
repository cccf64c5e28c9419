use cairn::catalog::{catalog_entries, catalog_paths, TomlValue};

fn s(x: &str) -> String {
    x.to_string()
}

#[test]
fn catalog_contains_only_explicit_theme_paths() {
    let synthetic = "/tmp/cairn-catalog/synthetic-theme.toml";
    let contents = format!("themes = [\"{}\"]\n", synthetic);
    assert_eq!(
        catalog_entries(&contents, "/home/u"),
        vec![(s("synthetic theme"), s(synthetic))]
    );
}

#[test]
fn catalog_keeps_only_string_items_in_order() {
    let contents = "themes = [\"~/themes/night-owl.toml\", 3, \"b.toml\", true]\nother = [\"x.toml\"]\n";
    assert_eq!(
        catalog_entries(contents, "/home/u"),
        vec![
            (s("night owl"), s("~/themes/night-owl.toml")),
            (s("b"), s("b.toml")),
        ]
    );
}

#[test]
fn catalog_without_themes_or_invalid_lists_nothing() {
    assert_eq!(catalog_entries("other = 1\n", "/home/u"), vec![]);
    assert_eq!(catalog_entries("themes = \"a.toml\"\n", "/home/u"), vec![]);
    assert_eq!(catalog_entries("not toml", "/home/u"), vec![]);
    assert_eq!(catalog_entries("", "/home/u"), vec![]);
}

#[test]
fn catalog_paths_reads_the_themes_array() {
    let v = TomlValue::Table(vec![
        (s("name"), TomlValue::Str(s("mine"))),
        (
            s("themes"),
            TomlValue::Array(vec![
                TomlValue::Str(s("a.toml")),
                TomlValue::Other,
                TomlValue::Array(vec![TomlValue::Str(s("nested.toml"))]),
                TomlValue::Str(s("c.toml")),
            ]),
        ),
    ]);
    assert_eq!(catalog_paths(&v), vec![s("a.toml"), s("c.toml")]);
    assert_eq!(catalog_paths(&TomlValue::Str(s("themes"))), Vec::<String>::new());
    assert_eq!(catalog_paths(&TomlValue::Table(vec![])), Vec::<String>::new());
}
