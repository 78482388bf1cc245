use tree_tui::color::ThemeColor;
use tree_tui::theme::{glob_is_valid, preview_name, Easing, SortMode, Target, Theme, ThemeRule};

fn rule(glob: &str, target: Target, colors: &str, icon: &str, speed: u32) -> ThemeRule {
    ThemeRule {
        glob: glob.to_string(),
        target,
        colors: colors.to_string(),
        icon: icon.to_string(),
        anim_speed: speed,
        anim_easing: Easing::Preset("sine".to_string()),
    }
}

pub fn sample_theme() -> Theme {
    Theme {
        name: "Sample".to_string(),
        branch_colors: "#494D64, #5B6078".to_string(),
        branch_speed: 1,
        branch_easing: Easing::Preset("linear".to_string()),
        dir_colors: "#8AADF4".to_string(),
        dir_icon: "D ".to_string(),
        dir_speed: 2,
        dir_easing: Easing::Preset("sine".to_string()),
        file_colors: "#CAD3F5".to_string(),
        file_icon: "F ".to_string(),
        file_speed: 3,
        file_easing: Easing::Custom(0x4000_0000),
        rules: vec![
            rule("*.rs", Target::File, "#EED49F, #F5A97F", "R", 4),
            rule("[", Target::Any, "#000000", "X", 5),
            rule("target", Target::Dir, "#5B6078", "T", 6),
        ],
    }
}

#[test]
fn target_from_str_ignores_case() {
    assert_eq!(Target::from_str("file"), Target::File);
    assert_eq!(Target::from_str("FILE"), Target::File);
    assert_eq!(Target::from_str("Dir"), Target::Dir);
    assert_eq!(Target::from_str("folder"), Target::Dir);
    assert_eq!(Target::from_str("FOLDER"), Target::Dir);
    assert_eq!(Target::from_str("any"), Target::Any);
    assert_eq!(Target::from_str(" file"), Target::Any);
    assert_eq!(Target::from_str(""), Target::Any);
}

#[test]
fn target_from_lowercase_exact() {
    assert_eq!(Target::from_lowercase("file"), Target::File);
    assert_eq!(Target::from_lowercase("File"), Target::Any);
    assert_eq!(Target::from_lowercase("dir"), Target::Dir);
}

#[test]
fn target_labels_and_accepts() {
    assert_eq!(Target::Any.label(), "Any");
    assert_eq!(Target::File.label(), "File");
    assert_eq!(Target::Dir.label(), "Dir");
    assert!(Target::File.accepts(false) && !Target::File.accepts(true));
    assert!(Target::Dir.accepts(true) && !Target::Dir.accepts(false));
    assert!(Target::Any.accepts(true) && Target::Any.accepts(false));
}

#[test]
fn sort_mode_labels() {
    assert_eq!(SortMode::Name.label(), "name");
    assert_eq!(SortMode::Extension.label(), "extension");
    assert_eq!(SortMode::Size.label(), "size");
    assert_eq!(SortMode::Modified.label(), "modified");
}

#[test]
fn easing_duplicate_keeps_value() {
    assert_eq!(Easing::Preset("sine".into()).duplicate(), Easing::Preset("sine".into()));
    assert_eq!(Easing::Custom(7).duplicate(), Easing::Custom(7));
    assert_eq!(Easing::linear(), Easing::Preset("linear".into()));
}

#[test]
fn to_runtime_drops_rules_whose_glob_fails() {
    let theme = sample_theme();
    assert!(theme.colors_hold());
    let rt = theme.to_runtime();
    assert_eq!(rt.rules.len(), 2);
    assert_eq!(rt.rules[0].target, Target::File);
    assert_eq!(rt.rules[0].icon, "R");
    assert_eq!(rt.rules[0].anim_speed, 4);
    assert_eq!(
        rt.rules[0].colors,
        vec![ThemeColor::Rgb(0xee, 0xd4, 0x9f), ThemeColor::Rgb(0xf5, 0xa9, 0x7f)]
    );
    assert_eq!(rt.rules[1].target, Target::Dir);
    assert_eq!(rt.rules[1].icon, "T");
    assert_eq!(rt.dir_colors, vec![ThemeColor::Rgb(0x8a, 0xad, 0xf4)]);
    assert_eq!(rt.file_easing, Easing::Custom(0x4000_0000));
    assert_eq!(rt.branch_colors.len(), 2);
}

#[test]
fn try_to_runtime_refuses_cut_characters() {
    let mut theme = sample_theme();
    assert!(theme.try_to_runtime().is_some());
    theme.dir_colors = "ab€c".to_string();
    assert!(!theme.colors_hold());
    assert!(theme.try_to_runtime().is_none());
}

#[test]
fn try_to_runtime_ignores_colors_of_dropped_rules() {
    let mut theme = sample_theme();
    theme.rules[1].colors = "ab€c".to_string();
    assert!(theme.try_to_runtime().is_some());
}

#[test]
fn glob_validity() {
    assert!(glob_is_valid("*.rs"));
    assert!(glob_is_valid("docker-compose.yml"));
    assert!(!glob_is_valid("["));
    assert!(!glob_is_valid("***"));
}

#[test]
fn preview_name_replaces_stars() {
    assert_eq!(preview_name("*.rs"), "example.rs");
    assert_eq!(preview_name("a*b*"), "aexamplebexample");
    assert_eq!(preview_name("Cargo.lock"), "Cargo.lock");
}

#[test]
fn default_rule_styles_everything_white() {
    let r = ThemeRule::default();
    assert_eq!(r.glob, "*");
    assert_eq!(r.target, Target::Any);
    assert_eq!(r.colors, "#FFFFFF");
    assert_eq!(r.icon, "📄");
    assert_eq!(r.anim_speed, 1.0f32.to_bits());
    assert_eq!(r.anim_easing, Easing::Preset("linear".to_string()));
}

#[test]
fn default_easing_is_linear() {
    assert_eq!(Easing::default(), Easing::Preset("linear".to_string()));
}

#[test]
fn added_rule_matches_new_files() {
    let r = ThemeRule::added();
    assert_eq!(r.glob, "*.new");
    assert_eq!(r.target, Target::Any);
    assert_eq!(r.colors, "#FFFFFF, #888888");
    assert_eq!(r.icon, "📄 ");
    assert_eq!(r.anim_speed, 1.0f32.to_bits());
    assert_eq!(r.anim_easing, Easing::Preset("sine".to_string()));
}

#[test]
fn target_labels_read_back() {
    for t in [Target::Any, Target::File, Target::Dir] {
        assert_eq!(Target::from_str(&t.label()), t);
    }
    assert_eq!(Target::from_str("DIR"), Target::Dir);
}
