use tree_tui::color::ThemeColor;
use tree_tui::theme::{Easing, Target, Theme};
use tree_tui::tree::{apply_theme_to_tree, TreeItem, SPEED_ONE_BITS};

fn item(name: &str, is_dir: bool) -> TreeItem {
    TreeItem {
        name: name.to_string(),
        is_dir,
        depth: 1,
        is_last: true,
        ancestor_is_last: vec![],
        cached_colors: vec![],
        cached_icon: String::new(),
        cached_speed: SPEED_ONE_BITS,
        cached_easing: Easing::default(),
    }
}

#[test]
fn builtin_theme_values() {
    let t = Theme::default();
    assert_eq!(t.name, "Catppuccin Macchiato");
    assert_eq!(t.branch_colors, "#494D64, #5B6078");
    assert_eq!(t.branch_speed, 0.2f32.to_bits());
    assert_eq!(t.dir_speed, 0.4f32.to_bits());
    assert_eq!(t.dir_easing, Easing::Preset("sine".to_string()));
    assert_eq!(t.file_colors, "#CAD3F5");
    assert_eq!(t.file_speed, 0.0f32.to_bits());
    assert_eq!(t.rules.len(), 21);
    assert_eq!(t.rules[0].glob, ".git");
    assert_eq!(t.rules[0].target, Target::Dir);
    assert_eq!(t.rules[4].glob, "*.rs");
    assert_eq!(t.rules[4].anim_speed, 1.5f32.to_bits());
    assert_eq!(t.rules[7].anim_speed, 0.8f32.to_bits());
    assert_eq!(t.rules[8].anim_speed, 1.2f32.to_bits());
    assert_eq!(t.rules[20].glob, ".gitignore");
    assert!(t.try_to_runtime().is_some());
}

#[test]
fn builtin_theme_styles_names() {
    let theme = Theme::default();
    let rt = theme.to_runtime();
    let mut items = vec![item("main.rs", false), item("target", true), item("target", false)];
    apply_theme_to_tree(&mut items, &rt);
    assert_eq!(items[0].cached_icon, "🦀");
    assert_eq!(
        items[0].cached_colors,
        vec![ThemeColor::Rgb(238, 212, 159), ThemeColor::Rgb(245, 169, 127)]
    );
    assert_eq!(items[0].cached_speed, 1.5f32.to_bits());
    assert_eq!(items[0].cached_easing, Easing::Preset("sine".to_string()));
    assert_eq!(items[1].cached_icon, theme.rules[2].icon);
    assert_eq!(items[1].cached_colors, vec![ThemeColor::Rgb(91, 96, 120)]);
    assert_eq!(items[1].cached_speed, 0);
    assert_eq!(items[1].cached_easing, Easing::Preset("linear".to_string()));
    // A file named "target": the directory-only rule is skipped.
    assert_eq!(items[2].cached_icon, theme.file_icon);
    assert_eq!(items[2].cached_colors, vec![ThemeColor::Rgb(202, 211, 245)]);
    assert_eq!(items[2].cached_speed, 0);
    assert_eq!(items[2].cached_easing, Easing::Preset("linear".to_string()));
}

#[test]
fn restyling_forgets_the_earlier_theme() {
    let builtin = Theme::default().to_runtime();
    let mut plain = Theme::default();
    plain.rules.clear();
    let plain = plain.to_runtime();
    let mut twice = vec![item("main.rs", false), item("src", true)];
    apply_theme_to_tree(&mut twice, &builtin);
    apply_theme_to_tree(&mut twice, &plain);
    let mut once = vec![item("main.rs", false), item("src", true)];
    apply_theme_to_tree(&mut once, &plain);
    assert_eq!(twice[0].cached_icon, once[0].cached_icon);
    assert_eq!(twice[0].cached_colors, once[0].cached_colors);
    assert_eq!(twice[0].cached_speed, once[0].cached_speed);
    assert_eq!(twice[1].cached_icon, once[1].cached_icon);
    assert_eq!(twice[1].cached_easing, once[1].cached_easing);
}

#[test]
fn runtime_keeps_speeds_easings_and_icons() {
    let t = Theme::default();
    let r = t.try_to_runtime().unwrap();
    assert_eq!(r.branch_speed, t.branch_speed);
    assert_eq!(r.branch_easing, t.branch_easing);
    assert_eq!(r.dir_icon, t.dir_icon);
    assert_eq!(r.dir_speed, t.dir_speed);
    assert_eq!(r.dir_easing, t.dir_easing);
    assert_eq!(r.file_icon, t.file_icon);
    assert_eq!(r.file_speed, t.file_speed);
    assert_eq!(r.file_easing, t.file_easing);
    assert_eq!(r.rules.len(), 21);
    assert_eq!(r.rules[4].glob, "*.rs");
}
