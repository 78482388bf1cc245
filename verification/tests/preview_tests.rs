use tree_tui::color::ThemeColor;
use tree_tui::editor::FieldMapping;
use tree_tui::preview::{try_preview, PreviewProblem};
use tree_tui::theme::{Easing, Theme, ThemeRule};

#[test]
fn preview_of_the_name() {
    let t = Theme::default();
    let p = try_preview(&t, FieldMapping::Name).unwrap();
    assert_eq!(p.text, "Editing Theme: Catppuccin Macchiato");
    assert_eq!(p.icon, "🏷️ ");
    assert_eq!(p.colors, vec![ThemeColor::White]);
    assert_eq!(p.speed, 1.0f32.to_bits());
    assert!(p.problems.is_empty());
}

#[test]
fn preview_of_sections() {
    let mut t = Theme::default();
    let p = try_preview(&t, FieldMapping::DirSpeed).unwrap();
    assert_eq!(p.text, "example_folder");
    assert_eq!(p.icon, t.dir_icon);
    assert_eq!(p.colors, vec![ThemeColor::Rgb(138, 173, 244), ThemeColor::Rgb(125, 196, 228)]);
    assert_eq!(p.speed, 0.4f32.to_bits());
    assert_eq!(p.easing, Easing::Preset("sine".to_string()));
    let p = try_preview(&t, FieldMapping::BranchEasing).unwrap();
    assert_eq!(p.text, "├── └── │   (Branch formatting preview)");
    assert_eq!(p.icon, "");
    t.file_colors = "#CAD3F5, nothex, #12".to_string();
    let p = try_preview(&t, FieldMapping::FileIcon).unwrap();
    assert_eq!(p.text, "example_file.txt");
    assert_eq!(p.problems, vec![PreviewProblem::InvalidHex, PreviewProblem::InvalidHex]);
}

#[test]
fn preview_of_a_rule() {
    let mut t = Theme::default();
    t.rules.push(ThemeRule {
        glob: "[*.x".to_string(),
        target: tree_tui::theme::Target::Any,
        colors: "zz".to_string(),
        icon: "R".to_string(),
        anim_speed: 7,
        anim_easing: Easing::Custom(3),
    });
    let last = t.rules.len() - 1;
    let p = try_preview(&t, FieldMapping::RuleColors(last)).unwrap();
    assert_eq!(p.text, "[example.x");
    assert_eq!(p.icon, "R");
    assert_eq!(p.speed, 7);
    assert_eq!(p.easing, Easing::Custom(3));
    assert_eq!(p.problems, vec![PreviewProblem::InvalidGlob, PreviewProblem::InvalidHex]);
    let p = try_preview(&t, FieldMapping::RuleGlob(4)).unwrap();
    assert_eq!(p.text, "example.rs");
    assert!(p.problems.is_empty());
}

#[test]
fn preview_refuses_cut_characters() {
    let mut t = Theme::default();
    t.dir_colors = "#aéaé".to_string();
    assert!(try_preview(&t, FieldMapping::DirColors).is_none());
    assert!(try_preview(&t, FieldMapping::Name).is_some());
}
