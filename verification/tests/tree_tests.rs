use tree_tui::color::ThemeColor;
use tree_tui::theme::{Easing, Target, Theme, ThemeRule};
use tree_tui::tree::{
    apply_theme_to_tree, item_indent, layout_tree, omission_name, style_item, tree_text,
    try_layout_tree, TreeItem, WalkEntry, SPEED_ONE_BITS,
};

fn entry(name: &str, is_dir: bool, depth: usize, parent: Option<usize>) -> WalkEntry {
    WalkEntry { name: name.to_string(), is_dir, depth, parent }
}

/// ".", "src/" holding three files, then "z.txt" at the top.
fn walk() -> Vec<WalkEntry> {
    vec![
        entry(".", true, 0, None),
        entry("src", true, 1, Some(0)),
        entry("a.rs", false, 2, Some(1)),
        entry("b.rs", false, 2, Some(1)),
        entry("c.rs", false, 2, Some(1)),
        entry("z.txt", false, 1, Some(0)),
    ]
}

fn names(items: &[TreeItem]) -> Vec<String> {
    items.iter().map(|i| i.name.clone()).collect()
}

#[test]
fn layout_without_limit_lists_everything() {
    let items = layout_tree(&walk(), None);
    assert_eq!(names(&items), vec![".", "src", "a.rs", "b.rs", "c.rs", "z.txt"]);
    let last: Vec<bool> = items.iter().map(|i| i.is_last).collect();
    assert_eq!(last, vec![true, false, false, false, true, true]);
    assert_eq!(items[2].ancestor_is_last, vec![false]);
    assert_eq!(items[5].ancestor_is_last, Vec::<bool>::new());
    assert_eq!(items[0].cached_colors, vec![ThemeColor::White]);
    assert_eq!(items[0].cached_speed, SPEED_ONE_BITS);
    assert_eq!(items[0].cached_easing, Easing::Preset("linear".into()));
    assert_eq!(items[0].cached_icon, "");
}

#[test]
fn layout_limit_adds_omitted_line_last() {
    let items = layout_tree(&walk(), Some(2));
    assert_eq!(
        names(&items),
        vec![".", "src", "a.rs", "b.rs", "... 1 omitted", "z.txt"]
    );
    // The regular child is no longer last: the omitted line is.
    assert!(!items[3].is_last);
    let marker = &items[4];
    assert!(marker.is_last && !marker.is_dir);
    assert_eq!(marker.depth, 2);
    assert_eq!(marker.ancestor_is_last, vec![false]);
    assert_eq!(marker.cached_colors, vec![ThemeColor::Rgb(165, 173, 203)]);
    assert_eq!(marker.cached_icon, "⋯ ");
    assert_eq!(marker.cached_speed, 0);
}

#[test]
fn layout_limit_never_hides_directories() {
    let w = vec![
        entry(".", true, 0, None),
        entry("d1", true, 1, Some(0)),
        entry("d2", true, 1, Some(0)),
        entry("f", false, 1, Some(0)),
    ];
    let items = layout_tree(&w, Some(0));
    assert_eq!(names(&items), vec![".", "d1", "d2", "... 1 omitted"]);
    assert!(!items[2].is_last);
}

#[test]
fn layout_marker_at_end_of_walk() {
    let w = vec![
        entry(".", true, 0, None),
        entry("a", false, 1, Some(0)),
        entry("b", false, 1, Some(0)),
        entry("c", false, 1, Some(0)),
    ];
    let items = layout_tree(&w, Some(1));
    assert_eq!(names(&items), vec![".", "a", "... 2 omitted"]);
    assert_eq!(items[2].depth, 1);
}

#[test]
fn try_layout_refuses_bad_parent_and_depth() {
    let bad_parent = vec![entry(".", true, 0, None), entry("a", false, 1, Some(7))];
    assert!(try_layout_tree(&bad_parent, None).is_none());
    let deep = vec![entry(".", true, 0, None), entry("a", false, 513, Some(0))];
    assert!(try_layout_tree(&deep, None).is_none());
    assert!(try_layout_tree(&walk(), Some(2)).is_some());
}

#[test]
fn tree_text_draws_branches() {
    let items = layout_tree(&walk(), Some(2));
    let text = tree_text(&items);
    let mut expected = String::new();
    expected.push_str(" .\n");
    expected.push_str("├──  src\n");
    expected.push_str("│   ├──  a.rs\n");
    expected.push_str("│   ├──  b.rs\n");
    expected.push_str("│   └── ⋯  ... 1 omitted\n");
    expected.push_str("└──  z.txt\n");
    assert_eq!(text, expected);
    assert_eq!(item_indent(&items[2]), "│   ├── ");
    assert_eq!(item_indent(&items[0]), "");
}

#[test]
fn omission_names() {
    assert!(omission_name("... 3 omitted"));
    assert!(omission_name("... omitted"));
    assert!(!omission_name("..3 omitted"));
    assert!(!omission_name("... 3 omitte"));
}

fn styled_theme() -> Theme {
    Theme {
        name: "t".into(),
        branch_colors: "#000000".into(),
        branch_speed: 0,
        branch_easing: Easing::Preset("linear".into()),
        dir_colors: "#0000FF".into(),
        dir_icon: "D".into(),
        dir_speed: 11,
        dir_easing: Easing::Preset("sine".into()),
        file_colors: "#00FF00".into(),
        file_icon: "F".into(),
        file_speed: 22,
        file_easing: Easing::Preset("linear".into()),
        rules: vec![
            ThemeRule {
                glob: "*.rs".into(),
                target: Target::File,
                colors: "#FF0000".into(),
                icon: "R".into(),
                anim_speed: 33,
                anim_easing: Easing::Custom(5),
            },
            ThemeRule {
                glob: "src".into(),
                target: Target::File,
                colors: "#111111".into(),
                icon: "S".into(),
                anim_speed: 44,
                anim_easing: Easing::Custom(6),
            },
        ],
    }
}

#[test]
fn apply_theme_styles_by_first_matching_rule() {
    let rt = styled_theme().to_runtime();
    let mut items = layout_tree(&walk(), Some(2));
    apply_theme_to_tree(&mut items, &rt);
    // "src" matches rule two's glob, but that rule is for files only.
    assert_eq!(items[1].cached_icon, "D");
    assert_eq!(items[1].cached_speed, 11);
    assert_eq!(items[2].cached_icon, "R");
    assert_eq!(items[2].cached_colors, vec![ThemeColor::Rgb(255, 0, 0)]);
    assert_eq!(items[2].cached_easing, Easing::Custom(5));
    assert_eq!(items[5].cached_icon, "F");
    assert_eq!(items[5].cached_colors, vec![ThemeColor::Rgb(0, 255, 0)]);
    // The omitted-files line keeps its own style.
    assert_eq!(items[4].cached_icon, "⋯ ");
    assert_eq!(items[4].cached_colors, vec![ThemeColor::Rgb(165, 173, 203)]);
}

#[test]
fn style_item_uses_given_answers() {
    let rt = styled_theme().to_runtime();
    let mut items = layout_tree(&walk(), None);
    let mut it = items.remove(2);
    style_item(&mut it, &rt, &vec![false, true]);
    assert_eq!(it.cached_icon, "S");
    style_item(&mut it, &rt, &vec![false, false]);
    assert_eq!(it.cached_icon, "F");
}

#[test]
fn law_styling_keeps_structure_example() {
    let rt = styled_theme().to_runtime();
    let before = layout_tree(&walk(), Some(2));
    let mut after = layout_tree(&walk(), Some(2));
    apply_theme_to_tree(&mut after, &rt);
    for (a, b) in before.iter().zip(after.iter()) {
        assert_eq!(a.name, b.name);
        assert_eq!(a.depth, b.depth);
        assert_eq!(a.is_last, b.is_last);
        assert_eq!(a.ancestor_is_last, b.ancestor_is_last);
    }
}

#[test]
fn law_styling_idempotent_example() {
    let rt = styled_theme().to_runtime();
    let mut once = layout_tree(&walk(), Some(2));
    apply_theme_to_tree(&mut once, &rt);
    let mut twice = layout_tree(&walk(), Some(2));
    apply_theme_to_tree(&mut twice, &rt);
    apply_theme_to_tree(&mut twice, &rt);
    assert_eq!(tree_text(&once), tree_text(&twice));
    for (a, b) in once.iter().zip(twice.iter()) {
        assert_eq!(a.cached_colors, b.cached_colors);
        assert_eq!(a.cached_speed, b.cached_speed);
    }
}

#[test]
fn law_line_count_example() {
    // Three listed entries plus the root; "src" leaves one file out.
    assert_eq!(layout_tree(&walk(), Some(2)).len(), 5 + 1);
    assert_eq!(layout_tree(&walk(), None).len(), 6);
}

#[test]
fn law_limit_per_directory_example() {
    let items = layout_tree(&walk(), Some(1));
    assert_eq!(names(&items), vec![".", "src", "a.rs", "... 2 omitted", "z.txt"]);
}

/// A deeper walk where two nested directories both leave files out.
fn nested_walk() -> Vec<WalkEntry> {
    vec![
        entry(".", true, 0, None),
        entry("a", true, 1, Some(0)),
        entry("b", true, 2, Some(1)),
        entry("b1", false, 3, Some(2)),
        entry("b2", false, 3, Some(2)),
        entry("a1", false, 2, Some(1)),
        entry("a2", false, 2, Some(1)),
        entry("top", false, 1, Some(0)),
    ]
}

#[test]
fn entry_lines_follow_walk_order() {
    let items = layout_tree(&nested_walk(), Some(1));
    let entries: Vec<String> = items
        .iter()
        .filter(|i| i.cached_speed == SPEED_ONE_BITS)
        .map(|i| i.name.clone())
        .collect();
    assert_eq!(entries, vec![".", "a", "b", "b1", "a1", "top"]);
    assert_eq!(
        names(&items),
        vec![".", "a", "b", "b1", "... 1 omitted", "a1", "... 1 omitted", "top"]
    );
}

#[test]
fn omitted_line_ends_its_directory() {
    let items = layout_tree(&nested_walk(), Some(1));
    for j in 0..items.len() - 1 {
        if items[j].cached_speed != SPEED_ONE_BITS {
            assert!(items[j + 1].depth < items[j].depth);
        }
    }
    assert_eq!(items[4].depth, 3);
    assert_eq!(items[6].depth, 2);
}
