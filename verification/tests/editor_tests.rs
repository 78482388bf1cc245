use std::path::PathBuf;
use tree_tui::color::ThemeColor;
use tree_tui::editor::{
    build_editor_state, get_row_title, section_accent, EditorAction, EditorEvent, EditorState,
    FieldKind, FieldMapping, Key, RuleText, TextEdit, TextInput, ThemeText,
};
use tree_tui::theme::Target;

fn text(s: &str) -> String {
    s.to_string()
}

fn sample_text(rules: usize) -> ThemeText {
    ThemeText {
        name: text("Mocha"),
        branch_colors: text("#111111"),
        branch_speed: text("0.2"),
        branch_easing: text("linear"),
        dir_colors: text("#222222"),
        dir_icon: text("D"),
        dir_speed: text("0.4"),
        dir_easing: text("sine"),
        file_colors: text("#333333"),
        file_icon: text("F"),
        file_speed: text("0"),
        file_easing: text("linear"),
        rules: (0..rules)
            .map(|i| RuleText {
                glob: format!("*.{}", i),
                target: text("File"),
                colors: text("#444444"),
                icon: text("I"),
                speed: text("1.5"),
                easing: text("pingpong"),
            })
            .collect(),
    }
}

fn key(k: Key) -> EditorEvent {
    EditorEvent { key: k, ctrl: false, edit: None }
}

fn ctrl(c: char) -> EditorEvent {
    EditorEvent { key: Key::Char(c), ctrl: true, edit: None }
}

fn focus(ed: &EditorState) -> (usize, usize, usize) {
    (ed.active_page, ed.focused_row, ed.focused_col)
}

#[test]
fn build_lays_out_both_pages() {
    let ed = build_editor_state(&sample_text(2), PathBuf::from("a.toml"), None);
    assert_eq!(ed.pages.len(), 2);
    assert_eq!(ed.pages[0].len(), 4);
    assert_eq!(ed.pages[1].len(), 4);
    assert_eq!(ed.pages[0][0].fields[0].label, "Theme Name");
    assert_eq!(ed.pages[0][0].fields[0].input.value, "Mocha");
    assert_eq!(ed.pages[0][0].fields[0].input.cursor, 5);
    assert_eq!(ed.pages[0][1].fields[2].kind, FieldKind::EasingCombo);
    assert_eq!(ed.pages[0][1].fields[2].label, "Ease (Enter↓)");
    assert_eq!(ed.pages[1][2].fields[0].label, "R2 Glob");
    assert_eq!(ed.pages[1][2].fields[0].mapping, FieldMapping::RuleGlob(1));
    assert_eq!(ed.pages[1][0].fields[1].kind, FieldKind::TargetDropdown);
    assert_eq!(focus(&ed), (0, 0, 0));
    assert!(ed.wf_holds());
}

#[test]
fn build_keeps_page() {
    let ed = build_editor_state(&sample_text(1), PathBuf::from("a.toml"), Some(1));
    assert_eq!(focus(&ed), (1, 0, 0));
}

#[test]
fn tab_walks_every_field_and_wraps() {
    let mut ed = build_editor_state(&sample_text(1), PathBuf::from("a.toml"), None);
    assert_eq!(ed.handle_key(key(Key::Tab)), EditorAction::Stay);
    assert_eq!(focus(&ed), (0, 1, 0));
    ed.handle_key(key(Key::Tab));
    assert_eq!(focus(&ed), (0, 1, 1));
    for _ in 0..10 {
        ed.handle_key(key(Key::Tab));
    }
    assert_eq!(focus(&ed), (1, 0, 0));
    for _ in 0..6 {
        ed.handle_key(key(Key::Tab));
    }
    assert_eq!(focus(&ed), (0, 0, 0));
}

#[test]
fn backtab_wraps_to_last_field() {
    let mut ed = build_editor_state(&sample_text(1), PathBuf::from("a.toml"), None);
    ed.handle_key(key(Key::BackTab));
    assert_eq!(focus(&ed), (1, 1, 2));
}

#[test]
fn law_tab_then_backtab_example() {
    let mut ed = build_editor_state(&sample_text(2), PathBuf::from("a.toml"), None);
    for _ in 0..7 {
        ed.handle_key(key(Key::Tab));
        let here = focus(&ed);
        ed.handle_key(key(Key::Tab));
        ed.handle_key(key(Key::BackTab));
        assert_eq!(focus(&ed), here);
    }
}

#[test]
fn up_down_keep_column_in_row() {
    let mut ed = build_editor_state(&sample_text(0), PathBuf::from("a.toml"), None);
    ed.handle_key(key(Key::Down));
    ed.handle_key(key(Key::Down));
    ed.handle_key(key(Key::Tab));
    ed.handle_key(key(Key::Tab));
    ed.handle_key(key(Key::Tab));
    assert_eq!(focus(&ed), (0, 2, 3));
    ed.handle_key(key(Key::Up));
    assert_eq!(focus(&ed), (0, 1, 2));
    ed.handle_key(key(Key::Up));
    assert_eq!(focus(&ed), (0, 0, 0));
    ed.handle_key(key(Key::Up));
    assert_eq!(focus(&ed), (0, 0, 0));
    for _ in 0..5 {
        ed.handle_key(key(Key::Down));
    }
    assert_eq!(focus(&ed), (0, 3, 0));
}

#[test]
fn paging_moves_between_pages() {
    let mut ed = build_editor_state(&sample_text(0), PathBuf::from("a.toml"), None);
    ed.handle_key(key(Key::PageDown));
    assert_eq!(focus(&ed), (1, 0, 0));
    ed.handle_key(key(Key::PageDown));
    assert_eq!(focus(&ed), (1, 0, 0));
    // The rules page is empty: Enter and Tab have no field to act on.
    assert!(!ed.key_is_defined(&key(Key::Enter)));
    assert!(!ed.key_is_defined(&key(Key::Tab)));
    assert!(ed.key_is_defined(&key(Key::BackTab)));
    ed.handle_key(key(Key::PageUp));
    assert_eq!(focus(&ed), (0, 0, 0));
}

#[test]
fn dropdown_picks_an_option() {
    let mut ed = build_editor_state(&sample_text(1), PathBuf::from("a.toml"), Some(1));
    ed.handle_key(key(Key::Tab));
    ed.handle_key(key(Key::Enter));
    let d = ed.dropdown.as_ref().unwrap();
    assert_eq!(d.options, vec!["Any", "File", "Dir"]);
    assert_eq!((d.selected, d.row, d.col), (0, 0, 1));
    ed.handle_key(key(Key::Down));
    ed.handle_key(key(Key::Down));
    ed.handle_key(key(Key::Down));
    assert_eq!(ed.dropdown.as_ref().unwrap().selected, 2);
    ed.handle_key(key(Key::Up));
    ed.handle_key(key(Key::Enter));
    assert!(ed.dropdown.is_none());
    assert_eq!(ed.pages[1][0].fields[1].input.value, "File");
    assert_eq!(ed.pages[1][0].fields[1].input.cursor, 4);
}

#[test]
fn dropdown_escape_closes() {
    let mut ed = build_editor_state(&sample_text(0), PathBuf::from("a.toml"), None);
    ed.handle_key(key(Key::Down));
    ed.handle_key(key(Key::Tab));
    ed.handle_key(key(Key::Tab));
    ed.handle_key(key(Key::Enter));
    assert_eq!(ed.dropdown.as_ref().unwrap().options, vec!["linear", "sine", "pingpong"]);
    ed.handle_key(key(Key::Esc));
    assert!(ed.dropdown.is_none());
    assert_eq!(ed.pages[0][1].fields[2].input.value, "linear");
}

#[test]
fn enter_on_text_field_opens_nothing() {
    let mut ed = build_editor_state(&sample_text(0), PathBuf::from("a.toml"), None);
    ed.handle_key(key(Key::Enter));
    assert!(ed.dropdown.is_none());
}

#[test]
fn control_keys_ask_for_actions() {
    let mut ed = build_editor_state(&sample_text(2), PathBuf::from("a.toml"), Some(1));
    assert_eq!(ed.handle_key(ctrl('s')), EditorAction::Save);
    assert_eq!(ed.handle_key(ctrl('n')), EditorAction::AddRule);
    ed.handle_key(key(Key::Down));
    ed.handle_key(key(Key::Down));
    assert_eq!(ed.handle_key(ctrl('d')), EditorAction::DeleteRule(1));
    ed.handle_key(key(Key::PageUp));
    assert_eq!(ed.handle_key(ctrl('d')), EditorAction::Stay);
    assert_eq!(ed.handle_key(ctrl('x')), EditorAction::Stay);
    assert_eq!(ed.handle_key(key(Key::Esc)), EditorAction::Leave);
}

#[test]
fn typing_edits_the_focused_field() {
    let mut ed = build_editor_state(&sample_text(0), PathBuf::from("a.toml"), None);
    let ev = EditorEvent { key: Key::Char('!'), ctrl: false, edit: Some(TextEdit::InsertChar('!')) };
    ed.handle_key(ev);
    assert_eq!(ed.pages[0][0].fields[0].input.value, "Mocha!");
    let ev = EditorEvent { key: Key::Other, ctrl: false, edit: Some(TextEdit::GoToStart) };
    ed.handle_key(ev);
    assert_eq!(ed.pages[0][0].fields[0].input.cursor, 0);
    let ev = EditorEvent { key: Key::Other, ctrl: false, edit: Some(TextEdit::DeleteNextChar) };
    ed.handle_key(ev);
    assert_eq!(ed.pages[0][0].fields[0].input.value, "ocha!");
}

#[test]
fn text_input_handle_wraps_tui_input() {
    let mut t = TextInput::new(text("ab"));
    assert_eq!(t.cursor, 2);
    t.handle(TextEdit::GoToPrevChar);
    t.handle(TextEdit::InsertChar('x'));
    assert_eq!(t.value, "axb");
    assert_eq!(t.cursor, 2);
    t.handle(TextEdit::DeleteLine);
    assert_eq!(t.value, "");
    assert_eq!(t.cursor, 0);
}

#[test]
fn draft_reads_back_every_field() {
    let ed = build_editor_state(&sample_text(2), PathBuf::from("a.toml"), None);
    assert!(ed.rule_positions_hold());
    let d = ed.draft_theme();
    assert_eq!(d.name.as_deref(), Some("Mocha"));
    assert_eq!(d.branch_speed.as_deref(), Some("0.2"));
    assert_eq!(d.file_easing.as_deref(), Some("linear"));
    assert_eq!(d.rules.len(), 2);
    assert_eq!(d.rules[1].glob.as_deref(), Some("*.1"));
    assert_eq!(d.rules[0].target, Some(Target::File));
    assert_eq!(d.rules[0].speed.as_deref(), Some("1.5"));
}

#[test]
fn law_editor_reads_back_theme_example() {
    let t = sample_text(3);
    let ed = build_editor_state(&t, PathBuf::from("a.toml"), Some(1));
    let d = ed.draft_theme();
    assert_eq!(d.dir_icon.as_deref(), Some(t.dir_icon.as_str()));
    assert_eq!(d.rules.len(), t.rules.len());
    for (r, rt) in d.rules.iter().zip(t.rules.iter()) {
        assert_eq!(r.glob.as_deref(), Some(rt.glob.as_str()));
        assert_eq!(r.colors.as_deref(), Some(rt.colors.as_str()));
        assert_eq!(r.easing.as_deref(), Some(rt.easing.as_str()));
    }
}

#[test]
fn draft_sees_edits() {
    let mut ed = build_editor_state(&sample_text(1), PathBuf::from("a.toml"), Some(1));
    ed.handle_key(key(Key::Tab));
    ed.handle_key(key(Key::Enter));
    ed.handle_key(key(Key::Down));
    ed.handle_key(key(Key::Down));
    ed.handle_key(key(Key::Enter));
    let d = ed.draft_theme();
    assert_eq!(d.rules[0].target, Some(Target::Dir));
}

#[test]
fn focus_last_rule_row_after_adding() {
    let mut ed = build_editor_state(&sample_text(3), PathBuf::from("a.toml"), Some(1));
    ed.focus_last_rule_row();
    assert_eq!(focus(&ed), (1, 5, 0));
    assert_eq!(ed.scroll_offset, 3);
    let mut ed = build_editor_state(&sample_text(0), PathBuf::from("a.toml"), Some(1));
    ed.focus_last_rule_row();
    assert_eq!((ed.focused_row, ed.scroll_offset), (0, 0));
}

#[test]
fn clamp_row_and_col() {
    let mut ed = build_editor_state(&sample_text(0), PathBuf::from("a.toml"), None);
    ed.focused_row = 9;
    ed.clamp_row();
    assert_eq!(ed.focused_row, 3);
    ed.focused_col = 9;
    ed.clamp_col();
    assert_eq!(ed.focused_col, 3);
}

#[test]
fn scroll_brings_focus_into_view() {
    let mut ed = build_editor_state(&sample_text(4), PathBuf::from("a.toml"), Some(1));
    // Rule rows take 3 lines (with heading) and 2 lines alternately.
    assert_eq!(ed.rows_shown_from(0, 10), 4);
    assert_eq!(ed.rows_shown_from(0, 1), 1);
    ed.focused_row = 6;
    ed.scroll_into_view(10);
    assert_eq!(ed.scroll_offset, 3);
    ed.focused_row = 1;
    ed.scroll_into_view(10);
    assert_eq!(ed.scroll_offset, 1);
}

#[test]
fn row_titles_and_accents() {
    assert_eq!(get_row_title(&FieldMapping::Name).as_deref(), Some(" General Settings "));
    assert_eq!(get_row_title(&FieldMapping::FileColors).as_deref(), Some(" File Defaults "));
    assert_eq!(get_row_title(&FieldMapping::RuleGlob(4)).as_deref(), Some(" Overriding Rule 5 "));
    assert_eq!(get_row_title(&FieldMapping::DirIcon), None);
    assert_eq!(section_accent(&FieldMapping::Name), ThemeColor::Rgb(183, 189, 248));
    assert_eq!(section_accent(&FieldMapping::RuleGlob(0)), ThemeColor::Rgb(245, 169, 127));
    assert_eq!(section_accent(&FieldMapping::RuleIcon(0)), ThemeColor::Rgb(128, 135, 162));
}

#[test]
fn law_step_keeps_wf_example() {
    let mut ed = build_editor_state(&sample_text(2), PathBuf::from("a.toml"), None);
    let keys = [Key::Tab, Key::Down, Key::BackTab, Key::PageDown, Key::Enter, Key::Down, Key::Enter, Key::Up, Key::Tab, Key::PageUp, Key::BackTab];
    for k in keys {
        if ed.key_is_defined(&key(k)) {
            ed.handle_key(key(k));
        }
        assert!(ed.wf_holds());
    }
}

#[test]
fn added_rule_reads_back_after_old_rules() {
    let old = sample_text(2);
    let mut t2 = sample_text(2);
    t2.rules.push(RuleText {
        glob: text("*.new"),
        target: text("Any"),
        colors: text("#FFFFFF, #888888"),
        icon: text("N"),
        speed: text("1"),
        easing: text("sine"),
    });
    let mut ed = build_editor_state(&t2, PathBuf::from("a.toml"), Some(1));
    ed.focus_last_rule_row();
    assert_eq!(focus(&ed), (1, 2 * old.rules.len() + 1, 0));
    let d = ed.draft_theme();
    assert_eq!(d.name.as_deref(), Some("Mocha"));
    assert_eq!(d.rules.len(), 3);
    assert_eq!(d.rules[0].glob.as_deref(), Some("*.0"));
    assert_eq!(d.rules[1].glob.as_deref(), Some("*.1"));
    assert_eq!(d.rules[2].glob.as_deref(), Some("*.new"));
    assert_eq!(d.rules[2].target, Some(Target::Any));
}

#[test]
fn deleted_rule_reads_back_without_it() {
    let mut t2 = sample_text(3);
    t2.rules.remove(1);
    let ed = build_editor_state(&t2, PathBuf::from("a.toml"), Some(1));
    let d = ed.draft_theme();
    assert_eq!(d.rules.len(), 2);
    assert_eq!(d.rules[0].glob.as_deref(), Some("*.0"));
    assert_eq!(d.rules[1].glob.as_deref(), Some("*.2"));
    assert_eq!(d.dir_icon.as_deref(), Some("D"));
}

#[test]
fn scroll_ready_checks_the_active_page() {
    let ed = build_editor_state(&sample_text(2), PathBuf::from("a.toml"), Some(1));
    assert!(ed.scroll_ready_holds(20));
    let empty = build_editor_state(&sample_text(0), PathBuf::from("a.toml"), Some(1));
    assert!(!empty.scroll_ready_holds(20));
}

#[test]
fn scroll_reads_only_the_rows_it_measures() {
    let mut ed = build_editor_state(&sample_text(5), PathBuf::from("a.toml"), Some(1));
    // The last row of the rules page loses its fields; a short view never
    // reads it, a tall one does.
    ed.pages[1][9].fields.clear();
    assert!(ed.scroll_ready_holds(6));
    assert!(!ed.scroll_ready_holds(100));
    ed.scroll_into_view(6);
    assert_eq!(ed.scroll_offset, 0);
    assert_eq!(ed.rows_shown_from(0, 6), 2);
}
