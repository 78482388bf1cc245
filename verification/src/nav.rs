use vstd::prelude::*;

use crate::editor::Key;

verus! {

/// The screen the application shows.
#[derive(Clone, Copy, Debug, PartialEq, Eq, Structural)]
pub enum View {
    Tree,
    ThemeList,
    Editor,
}

/// What a key on the tree screen asks for.
#[derive(Clone, Copy, Debug, PartialEq, Eq, Structural)]
pub enum TreeCommand {
    /// Open the theme list.
    OpenThemes,
    /// Copy the tree to the clipboard.
    Copy,
    /// Select the line at this position.
    Select(usize),
    /// Clear the feedback message.
    ClearFeedback,
    /// Nothing at all.
    Nothing,
}

/// What a key on the theme list asks for.
#[derive(Clone, Copy, Debug, PartialEq, Eq, Structural)]
pub enum MenuCommand {
    /// Go back to the tree.
    Back,
    /// Select the theme at this position.
    Select(usize),
    /// Make the theme at this position the active one.
    Apply(usize),
    /// Open the theme at this position in the editor.
    Edit(usize),
    /// Nothing at all.
    Nothing,
}

/// How far the page keys move the tree selection.
pub const PAGE_STEP: usize = 15;

pub open spec fn last_index(len: usize) -> nat {
    if len > 0 {
        (len - 1) as nat
    } else {
        0
    }
}

pub open spec fn down_from(sel: Option<usize>, step: nat, len: usize) -> nat {
    match sel {
        None => 0,
        Some(i) => if i + step < last_index(len) {
            (i + step) as nat
        } else {
            last_index(len)
        },
    }
}

pub open spec fn up_from(sel: Option<usize>, step: nat) -> nat {
    match sel {
        None => 0,
        Some(i) => if i >= step {
            (i - step) as nat
        } else {
            0
        },
    }
}

/// What a key does on the tree screen, with `len` lines and the current
/// selection: `t` opens the themes, `c` copies (unless copying is off),
/// `j`/Down and `k`/Up move by one line, the page keys by fifteen, staying
/// within the lines; any other key clears the feedback message.
pub open spec fn tree_command(sel: Option<usize>, len: usize, key: Key, no_clipboard: bool) -> TreeCommand {
    match key {
        Key::Char('t') => TreeCommand::OpenThemes,
        Key::Char('c') => if no_clipboard {
            TreeCommand::Nothing
        } else {
            TreeCommand::Copy
        },
        Key::Down | Key::Char('j') => TreeCommand::Select(down_from(sel, 1, len) as usize),
        Key::Up | Key::Char('k') => TreeCommand::Select(up_from(sel, 1) as usize),
        Key::PageDown => TreeCommand::Select(down_from(sel, PAGE_STEP as nat, len) as usize),
        Key::PageUp => TreeCommand::Select(up_from(sel, PAGE_STEP as nat) as usize),
        _ => TreeCommand::ClearFeedback,
    }
}

/// The selection is far enough from the end of `usize` for a move down.
pub open spec fn tree_key_fits(sel: Option<usize>, key: Key) -> bool {
    sel matches Some(i) ==> match key {
        Key::Down | Key::Char('j') => i < usize::MAX,
        Key::PageDown => i + PAGE_STEP <= usize::MAX,
        _ => true,
    }
}

fn down(sel: Option<usize>, step: usize, len: usize) -> (r: usize)
    requires
        sel matches Some(i) ==> i + step <= usize::MAX,
    ensures
        r == down_from(sel, step as nat, len),
{
    match sel {
        None => 0,
        Some(i) => {
            let last = if len > 0 { len - 1 } else { 0 };
            if i + step < last {
                i + step
            } else {
                last
            }
        },
    }
}

fn up(sel: Option<usize>, step: usize) -> (r: usize)
    ensures
        r == up_from(sel, step as nat),
{
    match sel {
        None => 0,
        Some(i) => if i >= step {
            i - step
        } else {
            0
        },
    }
}

/// Decides what a key on the tree screen does.
pub fn tree_key(selected: Option<usize>, len: usize, key: Key, no_clipboard: bool) -> (c: TreeCommand)
    requires
        tree_key_fits(selected, key),
    ensures
        c == tree_command(selected, len, key, no_clipboard),
{
    match key {
        Key::Char('t') => TreeCommand::OpenThemes,
        Key::Char('c') => if no_clipboard {
            TreeCommand::Nothing
        } else {
            TreeCommand::Copy
        },
        Key::Down | Key::Char('j') => TreeCommand::Select(down(selected, 1, len)),
        Key::Up | Key::Char('k') => TreeCommand::Select(up(selected, 1)),
        Key::PageDown => TreeCommand::Select(down(selected, PAGE_STEP, len)),
        Key::PageUp => TreeCommand::Select(up(selected, PAGE_STEP)),
        _ => TreeCommand::ClearFeedback,
    }
}

/// What a key does on the theme list of `count` themes: Esc or `q` goes
/// back, `j`/Down and `k`/Up move the selection within the list, `a`
/// applies and Enter or `e` edits the selected theme, if one is selected.
pub open spec fn menu_command(sel: Option<usize>, count: usize, key: Key) -> MenuCommand {
    match key {
        Key::Esc | Key::Char('q') => MenuCommand::Back,
        Key::Down | Key::Char('j') => MenuCommand::Select(down_from(sel, 1, count) as usize),
        Key::Up | Key::Char('k') => MenuCommand::Select(up_from(sel, 1) as usize),
        Key::Char('a') => match sel {
            Some(i) => MenuCommand::Apply(i),
            None => MenuCommand::Nothing,
        },
        Key::Enter | Key::Char('e') => match sel {
            Some(i) => MenuCommand::Edit(i),
            None => MenuCommand::Nothing,
        },
        _ => MenuCommand::Nothing,
    }
}

/// The selection is far enough from the end of `usize` for a move down
/// the theme list.
pub open spec fn menu_key_fits(sel: Option<usize>, key: Key) -> bool {
    sel matches Some(i) ==> match key {
        Key::Down | Key::Char('j') => i < usize::MAX,
        _ => true,
    }
}

/// Decides what a key on the theme list does.
pub fn menu_key(selected: Option<usize>, count: usize, key: Key) -> (c: MenuCommand)
    requires
        menu_key_fits(selected, key),
    ensures
        c == menu_command(selected, count, key),
{
    match key {
        Key::Esc | Key::Char('q') => MenuCommand::Back,
        Key::Down | Key::Char('j') => MenuCommand::Select(down(selected, 1, count)),
        Key::Up | Key::Char('k') => MenuCommand::Select(up(selected, 1)),
        Key::Char('a') => match selected {
            Some(i) => MenuCommand::Apply(i),
            None => MenuCommand::Nothing,
        },
        Key::Enter | Key::Char('e') => match selected {
            Some(i) => MenuCommand::Edit(i),
            None => MenuCommand::Nothing,
        },
        _ => MenuCommand::Nothing,
    }
}

/// From a selection within the lines (or none), every move on the tree
/// screen selects a line within them, when there are any.
pub proof fn law_tree_moves_stay_within(sel: Option<usize>, len: usize, key: Key, no_clipboard: bool)
    requires
        sel matches Some(i) ==> i <= last_index(len),
    ensures
        tree_command(sel, len, key, no_clipboard) matches TreeCommand::Select(j) ==> j <= last_index(len),
{
}

/// From a selection within the list (or none), every move on the theme
/// list selects a theme within it, when there are any.
pub proof fn law_menu_moves_stay_within(sel: Option<usize>, count: usize, key: Key)
    requires
        sel matches Some(i) ==> i <= last_index(count),
    ensures
        menu_command(sel, count, key) matches MenuCommand::Select(j) ==> j <= last_index(count),
{
}

/// Whether a key press clears the feedback message before it is handled:
/// on every screen but the tree.
pub fn press_clears_feedback(view: View) -> (b: bool)
    ensures
        b == (view != View::Tree),
{
    view != View::Tree
}

/// Whether the application ends after a key: a plain `q` pressed on the
/// tree screen (on the theme list `q` goes back instead).
pub fn quits(view_before: View, key: Key, no_modifiers: bool) -> (b: bool)
    ensures
        b == (key == Key::Char('q') && view_before == View::Tree && no_modifiers),
{
    key == Key::Char('q') && view_before == View::Tree && no_modifiers
}

} // verus!
