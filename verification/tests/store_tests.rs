use tree_tui::store::{menu_line, theme_files, theme_name_from};

fn names(v: &[&str]) -> Vec<String> {
    v.iter().map(|s| s.to_string()).collect()
}

#[test]
fn active_name_is_trimmed() {
    assert_eq!(theme_name_from(Some("  mocha.toml\n".to_string())), "mocha.toml");
    assert_eq!(theme_name_from(Some("default.toml".to_string())), "default.toml");
    assert_eq!(theme_name_from(Some(" \t\n".to_string())), "");
}

#[test]
fn missing_pointer_names_default_theme() {
    assert_eq!(theme_name_from(None), "default.toml");
}

#[test]
fn theme_files_keep_toml_in_name_order() {
    let ns = names(&["zeta.toml", "notes.txt", "alpha.toml", "Beta.toml", "mid.toml"]);
    let picked = theme_files(&ns);
    let listed: Vec<&str> = picked.iter().map(|&i| ns[i].as_str()).collect();
    assert_eq!(listed, vec!["Beta.toml", "alpha.toml", "mid.toml", "zeta.toml"]);
}

#[test]
fn theme_files_follow_extension_rules() {
    // A name that is only ".toml" has no extension; "a.b.toml" has "toml";
    // "toml" alone and "x.tomlx" do not.
    let ns = names(&[".toml", "a.b.toml", "toml", "x.tomlx", "y.TOML", "b.toml"]);
    let picked = theme_files(&ns);
    assert_eq!(picked, vec![1, 5]);
}

#[test]
fn theme_files_of_empty_directory() {
    assert!(theme_files(&Vec::new()).is_empty());
}

#[test]
fn theme_files_order_by_characters() {
    let ns = names(&["é.toml", "z.toml", "a.toml"]);
    let picked = theme_files(&ns);
    let listed: Vec<&str> = picked.iter().map(|&i| ns[i].as_str()).collect();
    let mut expected: Vec<&str> = vec!["é.toml", "z.toml", "a.toml"];
    expected.sort();
    assert_eq!(listed, expected);
}

#[test]
fn menu_line_marks_the_active_theme() {
    assert_eq!(menu_line("mocha.toml", "mocha.toml"), (" ✦ mocha.toml".to_string(), true));
    assert_eq!(menu_line("latte.toml", "mocha.toml"), ("   latte.toml".to_string(), false));
}
