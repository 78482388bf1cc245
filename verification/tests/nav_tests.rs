use tree_tui::editor::Key;
use tree_tui::nav::{menu_key, press_clears_feedback, quits, tree_key, MenuCommand, TreeCommand, View};

#[test]
fn tree_keys_move_within_lines() {
    assert_eq!(tree_key(None, 10, Key::Down, false), TreeCommand::Select(0));
    assert_eq!(tree_key(Some(3), 10, Key::Char('j'), false), TreeCommand::Select(4));
    assert_eq!(tree_key(Some(9), 10, Key::Down, false), TreeCommand::Select(9));
    assert_eq!(tree_key(Some(0), 10, Key::Up, false), TreeCommand::Select(0));
    assert_eq!(tree_key(Some(5), 10, Key::Char('k'), false), TreeCommand::Select(4));
    assert_eq!(tree_key(Some(2), 40, Key::PageDown, false), TreeCommand::Select(17));
    assert_eq!(tree_key(Some(30), 40, Key::PageDown, false), TreeCommand::Select(39));
    assert_eq!(tree_key(Some(20), 40, Key::PageUp, false), TreeCommand::Select(5));
    assert_eq!(tree_key(Some(3), 40, Key::PageUp, false), TreeCommand::Select(0));
    assert_eq!(tree_key(Some(3), 0, Key::Down, false), TreeCommand::Select(0));
}

#[test]
fn tree_keys_commands() {
    assert_eq!(tree_key(None, 1, Key::Char('t'), false), TreeCommand::OpenThemes);
    assert_eq!(tree_key(None, 1, Key::Char('c'), false), TreeCommand::Copy);
    assert_eq!(tree_key(None, 1, Key::Char('c'), true), TreeCommand::Nothing);
    assert_eq!(tree_key(None, 1, Key::Char('x'), false), TreeCommand::ClearFeedback);
}

#[test]
fn menu_keys() {
    assert_eq!(menu_key(Some(1), 3, Key::Esc), MenuCommand::Back);
    assert_eq!(menu_key(Some(1), 3, Key::Char('q')), MenuCommand::Back);
    assert_eq!(menu_key(Some(2), 3, Key::Down), MenuCommand::Select(2));
    assert_eq!(menu_key(None, 3, Key::Up), MenuCommand::Select(0));
    assert_eq!(menu_key(Some(1), 3, Key::Char('a')), MenuCommand::Apply(1));
    assert_eq!(menu_key(None, 3, Key::Char('a')), MenuCommand::Nothing);
    assert_eq!(menu_key(Some(0), 3, Key::Enter), MenuCommand::Edit(0));
    assert_eq!(menu_key(Some(0), 3, Key::Char('e')), MenuCommand::Edit(0));
    assert_eq!(menu_key(Some(0), 3, Key::Tab), MenuCommand::Nothing);
}

#[test]
fn quitting_and_feedback() {
    assert!(quits(View::Tree, Key::Char('q'), true));
    assert!(!quits(View::Tree, Key::Char('q'), false));
    assert!(!quits(View::Editor, Key::Char('q'), true));
    assert!(!quits(View::Tree, Key::Esc, true));
    // On the theme list `q` goes back to the tree; it does not quit.
    assert!(!quits(View::ThemeList, Key::Char('q'), true));
    assert_eq!(menu_key(Some(0), 3, Key::Char('q')), MenuCommand::Back);
    // The theme list ignores PageDown, wherever the selection is.
    assert_eq!(menu_key(Some(usize::MAX), 3, Key::PageDown), MenuCommand::Nothing);
    assert!(press_clears_feedback(View::ThemeList));
    assert!(!press_clears_feedback(View::Tree));
}
