use vstd::prelude::*;

use tui_input::InputRequest;

use crate::color::ThemeColor;
use crate::text::{chars_of, copy_string, decimal, push_decimal, push_str, string_of};
use crate::theme::{Target, lowercase, target_named};

verus! {

/// Which part of a theme an editor field edits; rule fields carry the
/// position of their rule.
#[derive(Clone, Copy, Debug, PartialEq, Eq, Structural)]
pub enum FieldMapping {
    Name,
    BranchColors,
    BranchSpeed,
    BranchEasing,
    DirColors,
    DirIcon,
    DirSpeed,
    DirEasing,
    FileColors,
    FileIcon,
    FileSpeed,
    FileEasing,
    RuleGlob(usize),
    RuleTarget(usize),
    RuleColors(usize),
    RuleIcon(usize),
    RuleSpeed(usize),
    RuleEasing(usize),
}

/// How a field is edited: free text, or text with a list to pick from.
#[derive(Clone, Copy, Debug, PartialEq, Eq, Structural)]
pub enum FieldKind {
    Text,
    TargetDropdown,
    EasingCombo,
}

/// A key as the editor and the lists see it.
#[derive(Clone, Copy, Debug, PartialEq, Eq, Structural)]
pub enum Key {
    Char(char),
    Up,
    Down,
    PageUp,
    PageDown,
    Tab,
    BackTab,
    Enter,
    Esc,
    Other,
}

/// An edit of a text field (the requests of `tui_input`).
#[derive(Clone, Copy, Debug, PartialEq, Eq, Structural)]
pub enum TextEdit {
    SetCursor(usize),
    InsertChar(char),
    GoToPrevChar,
    GoToNextChar,
    GoToPrevWord,
    GoToNextWord,
    GoToStart,
    GoToEnd,
    DeletePrevChar,
    DeleteNextChar,
    DeletePrevWord,
    DeleteNextWord,
    DeleteLine,
    DeleteTillEnd,
}

/// The text of a field and the position of its cursor, in characters.
pub struct TextInput {
    pub value: String,
    pub cursor: usize,
}

pub struct InputView {
    pub value: Seq<char>,
    pub cursor: nat,
}

impl View for TextInput {
    type V = InputView;

    open spec fn view(&self) -> InputView {
        InputView { value: self.value@, cursor: self.cursor as nat }
    }
}

/// What `tui_input` makes of a field's text and cursor when it handles an
/// edit: a function of the text, the cursor and the edit alone.
pub uninterp spec fn input_handled(value: Seq<char>, cursor: nat, req: TextEdit) -> (Seq<char>, nat);

/// Lets `tui_input::Input::handle` apply an edit to a text and cursor.
#[verifier::external_body]
fn handle_text_edit(value: &str, cursor: usize, req: TextEdit) -> (r: (String, usize))
    ensures
        (r.0@, r.1 as nat) == input_handled(value@, cursor as nat, req),
{
    let req = match req {
        TextEdit::SetCursor(n) => InputRequest::SetCursor(n), TextEdit::InsertChar(c) => InputRequest::InsertChar(c),
        TextEdit::GoToPrevChar => InputRequest::GoToPrevChar, TextEdit::GoToNextChar => InputRequest::GoToNextChar,
        TextEdit::GoToPrevWord => InputRequest::GoToPrevWord, TextEdit::GoToNextWord => InputRequest::GoToNextWord,
        TextEdit::GoToStart => InputRequest::GoToStart, TextEdit::GoToEnd => InputRequest::GoToEnd,
        TextEdit::DeletePrevChar => InputRequest::DeletePrevChar, TextEdit::DeleteNextChar => InputRequest::DeleteNextChar,
        TextEdit::DeletePrevWord => InputRequest::DeletePrevWord, TextEdit::DeleteNextWord => InputRequest::DeleteNextWord,
        TextEdit::DeleteLine => InputRequest::DeleteLine, TextEdit::DeleteTillEnd => InputRequest::DeleteTillEnd,
    };
    let mut input = tui_input::Input::new(value.to_string()).with_cursor(cursor);
    input.handle(req);
    (input.value().to_string(), input.cursor())
}

impl TextInput {
    /// A field holding `value`, with the cursor after its last character.
    pub fn new(value: String) -> (t: TextInput)
        ensures
            t@ == (InputView { value: value@, cursor: value@.len() }),
    {
        let n = chars_of(value.as_str()).len();
        TextInput { value, cursor: n }
    }

    /// Applies an edit as `tui_input` does.
    pub fn handle(&mut self, req: TextEdit)
        ensures
            (final(self)@.value, final(self)@.cursor) == input_handled(
                old(self)@.value,
                old(self)@.cursor,
                req,
            ),
    {
        let (v, c) = handle_text_edit(self.value.as_str(), self.cursor, req);
        self.value = v;
        self.cursor = c;
    }
}

/// One field of the theme editor.
pub struct FormField {
    pub mapping: FieldMapping,
    pub label: String,
    pub input: TextInput,
    pub kind: FieldKind,
}

pub struct FieldView {
    pub mapping: FieldMapping,
    pub label: Seq<char>,
    pub input: InputView,
    pub kind: FieldKind,
}

impl View for FormField {
    type V = FieldView;

    open spec fn view(&self) -> FieldView {
        FieldView { mapping: self.mapping, label: self.label@, input: self.input@, kind: self.kind }
    }
}

/// One row of fields of the editor.
pub struct FormRow {
    pub fields: Vec<FormField>,
}

impl View for FormRow {
    type V = Seq<FieldView>;

    open spec fn view(&self) -> Seq<FieldView> {
        self.fields@.map_values(|f: FormField| f@)
    }
}

pub open spec fn page_view(rows: Seq<FormRow>) -> Seq<Seq<FieldView>> {
    rows.map_values(|r: FormRow| r@)
}

pub open spec fn pages_view(pages: Seq<Vec<FormRow>>) -> Seq<Seq<Seq<FieldView>>> {
    pages.map_values(|p: Vec<FormRow>| page_view(p@))
}

/// An open list of choices for one field.
pub struct DropdownState {
    pub options: Vec<String>,
    pub selected: usize,
    pub row: usize,
    pub col: usize,
}

pub struct DropdownView {
    pub options: Seq<Seq<char>>,
    pub selected: nat,
    pub row: nat,
    pub col: nat,
}

pub open spec fn strings_view(v: Seq<String>) -> Seq<Seq<char>> {
    v.map_values(|s: String| s@)
}

impl View for DropdownState {
    type V = DropdownView;

    open spec fn view(&self) -> DropdownView {
        DropdownView {
            options: strings_view(self.options@),
            selected: self.selected as nat,
            row: self.row as nat,
            col: self.col as nat,
        }
    }
}

/// A path on disk (`std::path::PathBuf`), carried along opaque.
#[verifier::external_type_specification]
#[verifier::external_body]
pub struct ExPathBuf(std::path::PathBuf);

/// The theme editor: pages of rows of fields, the focused field, the first
/// row shown, and an open list of choices if any.
pub struct EditorState {
    pub path: std::path::PathBuf,
    pub pages: Vec<Vec<FormRow>>,
    pub active_page: usize,
    pub focused_row: usize,
    pub focused_col: usize,
    pub scroll_offset: usize,
    pub dropdown: Option<DropdownState>,
}

#[verifier::ext_equal]
pub struct EditorView {
    pub path: std::path::PathBuf,
    pub pages: Seq<Seq<Seq<FieldView>>>,
    pub active_page: nat,
    pub focused_row: nat,
    pub focused_col: nat,
    pub scroll_offset: nat,
    pub dropdown: Option<DropdownView>,
}

pub open spec fn dropdown_view(d: Option<DropdownState>) -> Option<DropdownView> {
    match d {
        Some(x) => Some(x@),
        None => None,
    }
}

impl View for EditorState {
    type V = EditorView;

    open spec fn view(&self) -> EditorView {
        EditorView {
            path: self.path,
            pages: pages_view(self.pages@),
            active_page: self.active_page as nat,
            focused_row: self.focused_row as nat,
            focused_col: self.focused_col as nat,
            scroll_offset: self.scroll_offset as nat,
            dropdown: dropdown_view(self.dropdown),
        }
    }
}

pub open spec fn sat_dec(x: int) -> nat {
    if x > 0 {
        (x - 1) as nat
    } else {
        0
    }
}

pub open spec fn min_nat(a: nat, b: nat) -> nat {
    if a < b {
        a
    } else {
        b
    }
}

impl EditorView {
    pub open spec fn rows(self, p: int) -> nat {
        self.pages[p].len()
    }

    pub open spec fn cols(self, p: int, r: int) -> nat {
        self.pages[p][r].len()
    }

    /// The focused column once kept within the row `r` of page `p`.
    pub open spec fn clamped_col(self, p: int, r: int, c: nat) -> nat {
        if self.rows(p) == 0 {
            0
        } else {
            min_nat(c, sat_dec(self.cols(p, r) as int))
        }
    }

    /// What the editor keeps true between keys: the active page exists,
    /// every row has a field, the focus names a field (or is at the origin
    /// of an empty page), and an open list points at a field and an option.
    pub open spec fn wf(self) -> bool {
        &&& self.active_page < self.pages.len()
        &&& forall|p: int, r: int|
            0 <= p < self.pages.len() && 0 <= r < self.pages[p].len() ==> #[trigger] self.pages[p][r].len() > 0
        &&& if self.rows(self.active_page as int) == 0 {
            self.focused_row == 0 && self.focused_col == 0
        } else {
            self.focused_row < self.rows(self.active_page as int) && self.focused_col < self.cols(
                self.active_page as int,
                self.focused_row as int,
            )
        }
        &&& self.dropdown matches Some(d) ==> {
            &&& d.selected < d.options.len()
            &&& d.row < self.rows(self.active_page as int)
            &&& d.col < self.cols(self.active_page as int, d.row as int)
        }
    }
}

impl EditorState {
    /// Keeps the focused column within the focused row.
    pub fn clamp_col(&mut self)
        requires
            old(self).active_page < old(self).pages@.len(),
            old(self)@.rows(old(self).active_page as int) > 0 ==> old(self).focused_row < old(
                self,
            )@.rows(old(self).active_page as int),
        ensures
            final(self)@ == (EditorView {
                focused_col: old(self)@.clamped_col(
                    old(self).active_page as int,
                    old(self).focused_row as int,
                    old(self).focused_col as nat,
                ),
                ..old(self)@
            }),
    {
        let ghost pv = pages_view(self.pages@);
        assert(pv[self.active_page as int] == page_view(self.pages@[self.active_page as int]@));
        let rows = &self.pages[self.active_page];
        if rows.len() == 0 {
            self.focused_col = 0;
            return;
        }
        assert(page_view(rows@)[self.focused_row as int] == rows@[self.focused_row as int]@);
        let n = rows[self.focused_row].fields.len();
        let max_cols = if n > 0 { n - 1 } else { 0 };
        if self.focused_col > max_cols {
            self.focused_col = max_cols;
        }
    }

    /// Keeps the focused row within the active page.
    pub fn clamp_row(&mut self)
        requires
            old(self).active_page < old(self).pages@.len(),
        ensures
            final(self)@ == (EditorView {
                focused_row: if old(self)@.rows(old(self).active_page as int) == 0 {
                    0
                } else {
                    min_nat(
                        old(self).focused_row as nat,
                        sat_dec(old(self)@.rows(old(self).active_page as int) as int),
                    )
                },
                ..old(self)@
            }),
    {
        let ghost pv = pages_view(self.pages@);
        assert(pv[self.active_page as int] == page_view(self.pages@[self.active_page as int]@));
        let n = self.pages[self.active_page].len();
        if n == 0 {
            self.focused_row = 0;
            return;
        }
        if self.focused_row > n - 1 {
            self.focused_row = n - 1;
        }
    }
}

/// The heading shown above the first row of each section of the editor.
pub open spec fn row_title(mapping: FieldMapping) -> Option<Seq<char>> {
    match mapping {
        FieldMapping::Name => Some(" General Settings "@),
        FieldMapping::BranchColors => Some(" Branch Formatting "@),
        FieldMapping::DirColors => Some(" Directory Defaults "@),
        FieldMapping::FileColors => Some(" File Defaults "@),
        FieldMapping::RuleGlob(i) => Some(" Overriding Rule "@ + decimal((i + 1) as nat) + " "@),
        _ => None,
    }
}

/// The heading of a row whose first field has this mapping, if the row
/// opens a section.
pub fn get_row_title(mapping: &FieldMapping) -> (t: Option<String>)
    requires
        mapping matches FieldMapping::RuleGlob(i) ==> i < usize::MAX,
    ensures
        t matches Some(s) ==> row_title(*mapping) == Some(s@),
        t is None ==> row_title(*mapping) is None,
{
    match mapping {
        FieldMapping::Name => Some(string_of(" General Settings ")),
        FieldMapping::BranchColors => Some(string_of(" Branch Formatting ")),
        FieldMapping::DirColors => Some(string_of(" Directory Defaults ")),
        FieldMapping::FileColors => Some(string_of(" File Defaults ")),
        FieldMapping::RuleGlob(i) => {
            let mut s = string_of(" Overriding Rule ");
            push_decimal(&mut s, *i + 1);
            push_str(&mut s, " ");
            Some(s)
        },
        _ => None,
    }
}

/// The accent colour of a section, keyed by the mapping of its first field.
pub open spec fn accent_of(mapping: FieldMapping) -> ThemeColor {
    match mapping {
        FieldMapping::Name => ThemeColor::Rgb(183, 189, 248),
        FieldMapping::BranchColors => ThemeColor::Rgb(125, 196, 228),
        FieldMapping::DirColors => ThemeColor::Rgb(138, 173, 244),
        FieldMapping::FileColors => ThemeColor::Rgb(139, 213, 202),
        FieldMapping::RuleGlob(_) => ThemeColor::Rgb(245, 169, 127),
        _ => ThemeColor::Rgb(128, 135, 162),
    }
}

pub fn section_accent(mapping: &FieldMapping) -> (c: ThemeColor)
    ensures
        c == accent_of(*mapping),
{
    match mapping {
        FieldMapping::Name => ThemeColor::Rgb(183, 189, 248),
        FieldMapping::BranchColors => ThemeColor::Rgb(125, 196, 228),
        FieldMapping::DirColors => ThemeColor::Rgb(138, 173, 244),
        FieldMapping::FileColors => ThemeColor::Rgb(139, 213, 202),
        FieldMapping::RuleGlob(_) => ThemeColor::Rgb(245, 169, 127),
        _ => ThemeColor::Rgb(128, 135, 162),
    }
}

// ---------------------------------------------------------------------------
// Building the editor from a theme
// ---------------------------------------------------------------------------

/// The text of one overriding rule, as the editor shows it.
pub struct RuleText {
    pub glob: String,
    pub target: String,
    pub colors: String,
    pub icon: String,
    pub speed: String,
    pub easing: String,
}

/// Every field of a theme as the text the editor shows.
pub struct ThemeText {
    pub name: String,
    pub branch_colors: String,
    pub branch_speed: String,
    pub branch_easing: String,
    pub dir_colors: String,
    pub dir_icon: String,
    pub dir_speed: String,
    pub dir_easing: String,
    pub file_colors: String,
    pub file_icon: String,
    pub file_speed: String,
    pub file_easing: String,
    pub rules: Vec<RuleText>,
}

/// A field freshly filled with `value`, its cursor at the end.
pub open spec fn field_of(m: FieldMapping, label: Seq<char>, value: Seq<char>, kind: FieldKind) -> FieldView {
    FieldView { mapping: m, label, input: InputView { value, cursor: value.len() }, kind }
}

pub open spec fn ease_label() -> Seq<char> {
    "Ease (Enter↓)"@
}

/// The first page: the theme's name, then its branch, directory and file
/// styles, one row each.
pub open spec fn general_page(t: ThemeText) -> Seq<Seq<FieldView>> {
    seq![
        seq![field_of(FieldMapping::Name, "Theme Name"@, t.name@, FieldKind::Text)],
        seq![
            field_of(FieldMapping::BranchColors, "Branch Gradients"@, t.branch_colors@, FieldKind::Text),
            field_of(FieldMapping::BranchSpeed, "Spd"@, t.branch_speed@, FieldKind::Text),
            field_of(FieldMapping::BranchEasing, ease_label(), t.branch_easing@, FieldKind::EasingCombo),
        ],
        seq![
            field_of(FieldMapping::DirColors, "Default Dir Gradients"@, t.dir_colors@, FieldKind::Text),
            field_of(FieldMapping::DirIcon, "Icon"@, t.dir_icon@, FieldKind::Text),
            field_of(FieldMapping::DirSpeed, "Spd"@, t.dir_speed@, FieldKind::Text),
            field_of(FieldMapping::DirEasing, ease_label(), t.dir_easing@, FieldKind::EasingCombo),
        ],
        seq![
            field_of(FieldMapping::FileColors, "Default File Gradients"@, t.file_colors@, FieldKind::Text),
            field_of(FieldMapping::FileIcon, "Icon"@, t.file_icon@, FieldKind::Text),
            field_of(FieldMapping::FileSpeed, "Spd"@, t.file_speed@, FieldKind::Text),
            field_of(FieldMapping::FileEasing, ease_label(), t.file_easing@, FieldKind::EasingCombo),
        ],
    ]
}

/// The two rows of rule `i`: glob, target and icon; colours, speed and
/// easing.
pub open spec fn rule_row_pair(i: usize, r: RuleText) -> Seq<Seq<FieldView>> {
    seq![
        seq![
            field_of(FieldMapping::RuleGlob(i), "R"@ + decimal((i + 1) as nat) + " Glob"@, r.glob@, FieldKind::Text),
            field_of(FieldMapping::RuleTarget(i), "Target (Enter↓)"@, r.target@, FieldKind::TargetDropdown),
            field_of(FieldMapping::RuleIcon(i), "Icon"@, r.icon@, FieldKind::Text),
        ],
        seq![
            field_of(FieldMapping::RuleColors(i), "Gradients"@, r.colors@, FieldKind::Text),
            field_of(FieldMapping::RuleSpeed(i), "Spd"@, r.speed@, FieldKind::Text),
            field_of(FieldMapping::RuleEasing(i), ease_label(), r.easing@, FieldKind::EasingCombo),
        ],
    ]
}

/// The second page: two rows per rule, in rule order.
pub open spec fn rule_page(rules: Seq<RuleText>) -> Seq<Seq<FieldView>>
    decreases rules.len(),
{
    if rules.len() == 0 {
        seq![]
    } else {
        rule_page(rules.drop_last()) + rule_row_pair((rules.len() - 1) as usize, rules.last())
    }
}

/// The editor opened on a theme, on page `page`, focused on its first field.
pub open spec fn built_editor(t: ThemeText, path: std::path::PathBuf, page: nat) -> EditorView {
    EditorView {
        path,
        pages: seq![general_page(t), rule_page(t.rules@)],
        active_page: page,
        focused_row: 0,
        focused_col: 0,
        scroll_offset: 0,
        dropdown: None,
    }
}

fn make_field(m: FieldMapping, label: String, value: &String, kind: FieldKind) -> (f: FormField)
    ensures
        f@ == field_of(m, label@, value@, kind),
{
    FormField { mapping: m, label, input: TextInput::new(copy_string(value)), kind }
}

fn make_row(fields: Vec<FormField>) -> (r: FormRow)
    ensures
        r@ == fields@.map_values(|f: FormField| f@),
{
    FormRow { fields }
}

fn general_rows(t: &ThemeText) -> (rows: Vec<FormRow>)
    ensures
        page_view(rows@) == general_page(*t),
{
    let mut rows: Vec<FormRow> = Vec::new();
    let mut f0: Vec<FormField> = Vec::new();
    f0.push(make_field(FieldMapping::Name, string_of("Theme Name"), &t.name, FieldKind::Text));
    let r0 = make_row(f0);
    assert(r0@ =~= general_page(*t)[0]);
    rows.push(r0);
    let mut f1: Vec<FormField> = Vec::new();
    f1.push(make_field(FieldMapping::BranchColors, string_of("Branch Gradients"), &t.branch_colors, FieldKind::Text));
    f1.push(make_field(FieldMapping::BranchSpeed, string_of("Spd"), &t.branch_speed, FieldKind::Text));
    f1.push(make_field(FieldMapping::BranchEasing, string_of("Ease (Enter↓)"), &t.branch_easing, FieldKind::EasingCombo));
    let r1 = make_row(f1);
    assert(r1@ =~= general_page(*t)[1]);
    rows.push(r1);
    let mut f2: Vec<FormField> = Vec::new();
    f2.push(make_field(FieldMapping::DirColors, string_of("Default Dir Gradients"), &t.dir_colors, FieldKind::Text));
    f2.push(make_field(FieldMapping::DirIcon, string_of("Icon"), &t.dir_icon, FieldKind::Text));
    f2.push(make_field(FieldMapping::DirSpeed, string_of("Spd"), &t.dir_speed, FieldKind::Text));
    f2.push(make_field(FieldMapping::DirEasing, string_of("Ease (Enter↓)"), &t.dir_easing, FieldKind::EasingCombo));
    let r2 = make_row(f2);
    assert(r2@ =~= general_page(*t)[2]);
    rows.push(r2);
    let mut f3: Vec<FormField> = Vec::new();
    f3.push(make_field(FieldMapping::FileColors, string_of("Default File Gradients"), &t.file_colors, FieldKind::Text));
    f3.push(make_field(FieldMapping::FileIcon, string_of("Icon"), &t.file_icon, FieldKind::Text));
    f3.push(make_field(FieldMapping::FileSpeed, string_of("Spd"), &t.file_speed, FieldKind::Text));
    f3.push(make_field(FieldMapping::FileEasing, string_of("Ease (Enter↓)"), &t.file_easing, FieldKind::EasingCombo));
    let r3 = make_row(f3);
    assert(r3@ =~= general_page(*t)[3]);
    rows.push(r3);
    assert(page_view(rows@) =~= general_page(*t));
    rows
}

fn rule_rows(rules: &Vec<RuleText>) -> (rows: Vec<FormRow>)
    ensures
        page_view(rows@) == rule_page(rules@),
{
    let mut rows: Vec<FormRow> = Vec::new();
    let mut i: usize = 0;
    while i < rules.len()
        invariant
            i <= rules@.len(),
            page_view(rows@) == rule_page(rules@.take(i as int)),
        decreases rules@.len() - i,
    {
        let r = &rules[i];
        let mut glob_label = string_of("R");
        push_decimal(&mut glob_label, i + 1);
        push_str(&mut glob_label, " Glob");
        let mut a: Vec<FormField> = Vec::new();
        a.push(make_field(FieldMapping::RuleGlob(i), glob_label, &r.glob, FieldKind::Text));
        a.push(make_field(FieldMapping::RuleTarget(i), string_of("Target (Enter↓)"), &r.target, FieldKind::TargetDropdown));
        a.push(make_field(FieldMapping::RuleIcon(i), string_of("Icon"), &r.icon, FieldKind::Text));
        let mut b: Vec<FormField> = Vec::new();
        b.push(make_field(FieldMapping::RuleColors(i), string_of("Gradients"), &r.colors, FieldKind::Text));
        b.push(make_field(FieldMapping::RuleSpeed(i), string_of("Spd"), &r.speed, FieldKind::Text));
        b.push(make_field(FieldMapping::RuleEasing(i), string_of("Ease (Enter↓)"), &r.easing, FieldKind::EasingCombo));
        let ra = make_row(a);
        let rb = make_row(b);
        proof {
            let pair = rule_row_pair(i, rules@[i as int]);
            assert(ra@ =~= pair[0]);
            assert(rb@ =~= pair[1]);
            assert(rules@.take(i + 1).drop_last() == rules@.take(i as int));
            assert(rules@.take(i + 1).last() == rules@[i as int]);
        }
        let ghost before = rows@;
        rows.push(ra);
        rows.push(rb);
        proof {
            assert(page_view(rows@) =~= page_view(before) + rule_row_pair(i, rules@[i as int]));
        }
        i = i + 1;
    }
    assert(rules@.take(rules@.len() as int) == rules@);
    rows
}

/// Opens the editor on a theme's text, on page `keep_page` (the first page
/// by default), focused on the first field of that page.
pub fn build_editor_state(
    theme: &ThemeText,
    path: std::path::PathBuf,
    keep_page: Option<usize>,
) -> (ed: EditorState)
    requires
        match keep_page {
            Some(p) => p < 2,
            None => true,
        },
    ensures
        ed@ == built_editor(*theme, path, match keep_page {
            Some(p) => p as nat,
            None => 0,
        }),
        ed@.wf(),
{
    let mut pages: Vec<Vec<FormRow>> = Vec::new();
    pages.push(general_rows(theme));
    pages.push(rule_rows(&theme.rules));
    let page = match keep_page {
        Some(p) => p,
        None => 0,
    };
    let mut ed = EditorState {
        path,
        pages,
        active_page: page,
        focused_row: 0,
        focused_col: 0,
        scroll_offset: 0,
        dropdown: None,
    };
    assert(ed@.pages =~= seq![general_page(*theme), rule_page(theme.rules@)]);
    ed.clamp_row();
    ed.clamp_col();
    proof {
        lemma_rule_page_rows(theme.rules@);
        assert(ed@ =~= built_editor(*theme, ed.path, page as nat));
    }
    ed
}

proof fn lemma_rule_page_rows(rules: Seq<RuleText>)
    ensures
        rule_page(rules).len() == 2 * rules.len(),
        forall|r: int| 0 <= r < rule_page(rules).len() ==> #[trigger] rule_page(rules)[r].len() == 3,
    decreases rules.len(),
{
    if rules.len() > 0 {
        lemma_rule_page_rows(rules.drop_last());
        let prev = rule_page(rules.drop_last());
        let pair = rule_row_pair((rules.len() - 1) as usize, rules.last());
        assert forall|r: int| 0 <= r < rule_page(rules).len() implies #[trigger] rule_page(rules)[r].len() == 3 by {
            if r < prev.len() {
                assert(rule_page(rules)[r] == prev[r]);
            } else {
                assert(rule_page(rules)[r] == pair[r - prev.len()]);
            }
        }
    }
}

impl EditorState {
    /// Focuses the first field of the last row of the rules page, scrolled
    /// so that two rows above it stay in view.
    pub fn focus_last_rule_row(&mut self)
        requires
            old(self)@.pages.len() > 1,
        ensures
            final(self)@ == (EditorView {
                focused_row: sat_dec(old(self)@.rows(1) as int),
                focused_col: 0,
                scroll_offset: if sat_dec(old(self)@.rows(1) as int) >= 2 {
                    (sat_dec(old(self)@.rows(1) as int) - 2) as nat
                } else {
                    0
                },
                ..old(self)@
            }),
    {
        let ghost pv = pages_view(self.pages@);
        assert(pv[1] == page_view(self.pages@[1]@));
        let n = self.pages[1].len();
        self.focused_row = if n > 0 { n - 1 } else { 0 };
        self.focused_col = 0;
        self.scroll_offset = if self.focused_row >= 2 { self.focused_row - 2 } else { 0 };
    }
}

// ---------------------------------------------------------------------------
// Keys in the editor
// ---------------------------------------------------------------------------

/// A key press in the editor: the key, whether Control (and nothing else)
/// was held, and the text edit the key stands for, if any.
#[derive(Clone, Copy, Debug, PartialEq, Eq, Structural)]
pub struct EditorEvent {
    pub key: Key,
    pub ctrl: bool,
    pub edit: Option<TextEdit>,
}

/// What the application must do after an editor key.
#[derive(Clone, Copy, Debug, PartialEq, Eq, Structural)]
pub enum EditorAction {
    /// Stay in the editor.
    Stay,
    /// Go back to the theme list, keeping the editor as it is.
    Leave,
    /// Save the theme being edited and go back to the theme list.
    Save,
    /// Add a rule and reopen the editor on the rules page.
    AddRule,
    /// Remove the rule at this position and reopen the editor.
    DeleteRule(usize),
}

pub open spec fn rule_index(m: FieldMapping) -> Option<usize> {
    match m {
        FieldMapping::RuleGlob(i) => Some(i),
        FieldMapping::RuleTarget(i) => Some(i),
        FieldMapping::RuleColors(i) => Some(i),
        FieldMapping::RuleIcon(i) => Some(i),
        FieldMapping::RuleSpeed(i) => Some(i),
        FieldMapping::RuleEasing(i) => Some(i),
        _ => None,
    }
}

/// The choices a field offers when opened.
pub open spec fn options_for(kind: FieldKind) -> Option<Seq<Seq<char>>> {
    match kind {
        FieldKind::TargetDropdown => Some(seq!["Any"@, "File"@, "Dir"@]),
        FieldKind::EasingCombo => Some(seq!["linear"@, "sine"@, "pingpong"@]),
        FieldKind::Text => None,
    }
}

/// The pages with the input of one field replaced.
pub open spec fn with_input(
    pages: Seq<Seq<Seq<FieldView>>>,
    p: int,
    r: int,
    c: int,
    input: InputView,
) -> Seq<Seq<Seq<FieldView>>> {
    let f = pages[p][r][c];
    pages.update(p, pages[p].update(r, pages[p][r].update(c, FieldView { input, ..f })))
}

impl EditorView {
    pub open spec fn focused_field(self) -> FieldView {
        self.pages[self.active_page as int][self.focused_row as int][self.focused_col as int]
    }

    pub open spec fn with_focus(self, p: nat, r: nat, c: nat, s: nat) -> EditorView {
        EditorView { active_page: p, focused_row: r, focused_col: c, scroll_offset: s, ..self }
    }

    /// Where a navigation key moves the focus. Up and Down keep the column
    /// within the new row; Tab and BackTab step through every field of
    /// every page, wrapping around; paging starts at the page's top.
    pub open spec fn moved(self, key: Key) -> EditorView {
        let p = self.active_page;
        let r = self.focused_row;
        let c = self.focused_col;
        let s = self.scroll_offset;
        let last_page = sat_dec(self.pages.len() as int);
        match key {
            Key::PageUp => self.with_focus(sat_dec(p as int), 0, 0, 0),
            Key::PageDown => self.with_focus(min_nat(p + 1, last_page), 0, 0, 0),
            Key::Up => {
                let r2 = sat_dec(r as int);
                self.with_focus(p, r2, self.clamped_col(p as int, r2 as int, c), s)
            },
            Key::Down => {
                let r2 = min_nat(r + 1, sat_dec(self.rows(p as int) as int));
                self.with_focus(p, r2, self.clamped_col(p as int, r2 as int, c), s)
            },
            Key::Tab => if c < sat_dec(self.cols(p as int, r as int) as int) {
                self.with_focus(p, r, c + 1, s)
            } else if r < sat_dec(self.rows(p as int) as int) {
                self.with_focus(p, r + 1, 0, s)
            } else if p < last_page {
                self.with_focus(p + 1, 0, 0, 0)
            } else {
                self.with_focus(0, 0, 0, 0)
            },
            Key::BackTab => if c > 0 {
                self.with_focus(p, r, (c - 1) as nat, s)
            } else if r > 0 {
                self.with_focus(p, (r - 1) as nat, (self.cols(p as int, r - 1) - 1) as nat, s)
            } else if p > 0 {
                let r2 = sat_dec(self.rows(p - 1) as int);
                self.with_focus((p - 1) as nat, r2, (self.cols(p - 1, r2 as int) - 1) as nat, 0)
            } else {
                let r2 = sat_dec(self.rows(last_page as int) as int);
                self.with_focus(last_page, r2, (self.cols(last_page as int, r2 as int) - 1) as nat, 0)
            },
            _ => self,
        }
    }

    /// What bringing the focused row into view in `avail` lines reads: the
    /// active page, a focused row on it, a first shown row within it, and a
    /// field in every row that measuring the view reads on the way.
    pub open spec fn scroll_ready(self, avail: nat) -> bool {
        &&& self.active_page < self.pages.len()
        &&& self.focused_row < self.rows(self.active_page as int)
        &&& self.scroll_offset <= self.rows(self.active_page as int)
        &&& scroll_reads_fields(self.pages[self.active_page as int], self.scroll_offset, self.focused_row, avail)
    }

    /// The page BackTab lands on when it leaves the top of the page.
    pub open spec fn back_page(self) -> nat {
        if self.active_page > 0 {
            (self.active_page - 1) as nat
        } else {
            sat_dec(self.pages.len() as int)
        }
    }

    /// The keys on which the editor would index a field that does not
    /// exist: Enter and Tab on an empty page, BackTab from the top of a page
    /// onto an empty one.
    pub open spec fn key_defined(self, ev: EditorEvent) -> bool {
        !ev.ctrl && self.dropdown is None ==> match ev.key {
            Key::Enter => self.rows(self.active_page as int) > 0,
            Key::Tab => self.rows(self.active_page as int) > 0,
            Key::BackTab => self.focused_col > 0 || self.focused_row > 0 || self.rows(
                self.back_page() as int,
            ) > 0,
            _ => true,
        }
    }

    /// What one key does to the editor.
    pub open spec fn step(self, ev: EditorEvent) -> (EditorView, EditorAction) {
        let p = self.active_page as int;
        if ev.ctrl {
            match ev.key {
                Key::Char('s') => (self, EditorAction::Save),
                Key::Char('n') => (self, EditorAction::AddRule),
                Key::Char('d') => if self.rows(p) > 0 {
                    match rule_index(self.focused_field().mapping) {
                        Some(i) => (self, EditorAction::DeleteRule(i)),
                        None => (self, EditorAction::Stay),
                    }
                } else {
                    (self, EditorAction::Stay)
                },
                _ => (self, EditorAction::Stay),
            }
        } else if self.dropdown is Some {
            let d = self.dropdown->0;
            match ev.key {
                Key::Esc => (EditorView { dropdown: None, ..self }, EditorAction::Stay),
                Key::Up => (
                    EditorView {
                        dropdown: Some(DropdownView { selected: sat_dec(d.selected as int), ..d }),
                        ..self
                    },
                    EditorAction::Stay,
                ),
                Key::Down => (
                    EditorView {
                        dropdown: Some(
                            DropdownView {
                                selected: min_nat(d.selected + 1, sat_dec(d.options.len() as int)),
                                ..d
                            },
                        ),
                        ..self
                    },
                    EditorAction::Stay,
                ),
                Key::Enter => {
                    let v = d.options[d.selected as int];
                    (
                        EditorView {
                            pages: with_input(
                                self.pages,
                                p,
                                d.row as int,
                                d.col as int,
                                InputView { value: v, cursor: v.len() },
                            ),
                            dropdown: None,
                            ..self
                        },
                        EditorAction::Stay,
                    )
                },
                _ => (self, EditorAction::Stay),
            }
        } else {
            match ev.key {
                Key::Esc => (self, EditorAction::Leave),
                Key::Enter => match options_for(self.focused_field().kind) {
                    Some(opts) => (
                        EditorView {
                            dropdown: Some(
                                DropdownView {
                                    options: opts,
                                    selected: 0,
                                    row: self.focused_row,
                                    col: self.focused_col,
                                },
                            ),
                            ..self
                        },
                        EditorAction::Stay,
                    ),
                    None => (self, EditorAction::Stay),
                },
                Key::PageUp | Key::PageDown | Key::Up | Key::Down | Key::Tab | Key::BackTab => (
                    self.moved(ev.key),
                    EditorAction::Stay,
                ),
                _ => match ev.edit {
                    Some(req) => if self.rows(p) > 0 {
                        let old = self.focused_field().input;
                        let h = input_handled(old.value, old.cursor, req);
                        (
                            EditorView {
                                pages: with_input(
                                    self.pages,
                                    p,
                                    self.focused_row as int,
                                    self.focused_col as int,
                                    InputView { value: h.0, cursor: h.1 },
                                ),
                                ..self
                            },
                            EditorAction::Stay,
                        )
                    } else {
                        (self, EditorAction::Stay)
                    },
                    None => (self, EditorAction::Stay),
                },
            }
        }
    }
}

fn option_strings(kind: FieldKind) -> (r: Option<Vec<String>>)
    ensures
        match r {
            Some(v) => options_for(kind) == Some(strings_view(v@)),
            None => options_for(kind) is None,
        },
{
    match kind {
        FieldKind::TargetDropdown => {
            let mut v = Vec::new();
            v.push(string_of("Any"));
            v.push(string_of("File"));
            v.push(string_of("Dir"));
            assert(strings_view(v@) =~= seq!["Any"@, "File"@, "Dir"@]);
            Some(v)
        },
        FieldKind::EasingCombo => {
            let mut v = Vec::new();
            v.push(string_of("linear"));
            v.push(string_of("sine"));
            v.push(string_of("pingpong"));
            assert(strings_view(v@) =~= seq!["linear"@, "sine"@, "pingpong"@]);
            Some(v)
        },
        FieldKind::Text => None,
    }
}

/// Replaces the input of field `c` of row `r` of page `p`.
fn set_field_input(pages: &mut Vec<Vec<FormRow>>, p: usize, r: usize, c: usize, input: TextInput)
    requires
        p < old(pages)@.len(),
        r < old(pages)@[p as int]@.len(),
        c < old(pages)@[p as int]@[r as int].fields@.len(),
    ensures
        pages_view(final(pages)@) == with_input(pages_view(old(pages)@), p as int, r as int, c as int, input@),
{
    let ghost pv = pages_view(pages@);
    let mut page = pages.remove(p);
    let ghost pg = page@;
    let mut row = page.remove(r);
    let ghost fs = row.fields@;
    let mut field = row.fields.remove(c);
    field.input = input;
    row.fields.insert(c, field);
    assert(row@ =~= fs.map_values(|f: FormField| f@).update(c as int, row.fields@[c as int]@));
    page.insert(r, row);
    assert(page_view(page@) =~= page_view(pg).update(r as int, row@));
    let ghost rest = pages@;
    pages.insert(p, page);
    proof {
        assert(pv[p as int] == page_view(pg));
        assert(page_view(pg)[r as int] == pg[r as int]@);
        assert(pg[r as int]@[c as int] == fs[c as int]@);
        assert(pages_view(pages@) =~= with_input(pv, p as int, r as int, c as int, input@));
    }
}

proof fn lemma_view_parts(ed: EditorState, p: int, r: int, c: int)
    requires
        0 <= p < ed.pages@.len(),
    ensures
        ed@.pages[p] == page_view(ed.pages@[p]@),
        ed@.rows(p) == ed.pages@[p]@.len(),
        0 <= r < ed.pages@[p]@.len() ==> ed@.pages[p][r] == ed.pages@[p]@[r]@ && ed@.cols(p, r)
            == ed.pages@[p]@[r].fields@.len(),
        0 <= r < ed.pages@[p]@.len() && 0 <= c < ed.pages@[p]@[r].fields@.len() ==> ed@.pages[p][r][c]
            == ed.pages@[p]@[r].fields@[c]@,
{
}

impl EditorState {
    /// The number of fields in row `r` of page `p`.
    fn cols_in(&self, p: usize, r: usize) -> (n: usize)
        requires
            p < self.pages@.len(),
            r < self.pages@[p as int]@.len(),
        ensures
            n == self@.cols(p as int, r as int),
    {
        proof {
            lemma_view_parts(*self, p as int, r as int, 0);
        }
        self.pages[p][r].fields.len()
    }

    /// The number of rows of page `p`.
    fn rows_in(&self, p: usize) -> (n: usize)
        requires
            p < self.pages@.len(),
        ensures
            n == self@.rows(p as int),
    {
        proof {
            lemma_view_parts(*self, p as int, 0, 0);
        }
        self.pages[p].len()
    }

    fn focus_to(&mut self, p: usize, r: usize, c: usize, s: usize)
        ensures
            final(self)@ == old(self)@.with_focus(p as nat, r as nat, c as nat, s as nat),
    {
        self.active_page = p;
        self.focused_row = r;
        self.focused_col = c;
        self.scroll_offset = s;
    }
}

impl EditorState {
    /// Moves the focus as a navigation key says.
    fn navigate(&mut self, key: Key)
        requires
            old(self)@.wf(),
            old(self).dropdown is None,
            old(self)@.key_defined(EditorEvent { key, ctrl: false, edit: None }),
        ensures
            final(self)@ == old(self)@.moved(key),
    {
        let p = self.active_page;
        let r = self.focused_row;
        let c = self.focused_col;
        let s = self.scroll_offset;
        let np = self.pages.len();
        let last_page = if np > 0 { np - 1 } else { 0 };
        proof {
            lemma_view_parts(*self, p as int, r as int, c as int);
        }
        match key {
            Key::PageUp => {
                self.focus_to(if p > 0 { p - 1 } else { 0 }, 0, 0, 0);
            },
            Key::PageDown => {
                self.focus_to(if p + 1 < last_page { p + 1 } else { last_page }, 0, 0, 0);
            },
            Key::Up => {
                let r2 = if r > 0 { r - 1 } else { 0 };
                self.focused_row = r2;
                self.clamp_col();
            },
            Key::Down => {
                let rows = self.rows_in(p);
                let lim = if rows > 0 { rows - 1 } else { 0 };
                let r2 = if r + 1 < lim { r + 1 } else { lim };
                self.focused_row = r2;
                self.clamp_col();
            },
            Key::Tab => {
                let rows = self.rows_in(p);
                let cols = self.cols_in(p, r);
                if c < (if cols > 0 { cols - 1 } else { 0 }) {
                    self.focused_col = c + 1;
                } else if r < (if rows > 0 { rows - 1 } else { 0 }) {
                    self.focused_row = r + 1;
                    self.focused_col = 0;
                } else if p < last_page {
                    self.focus_to(p + 1, 0, 0, 0);
                } else {
                    self.focus_to(0, 0, 0, 0);
                }
            },
            Key::BackTab => {
                if c > 0 {
                    self.focused_col = c - 1;
                } else if r > 0 {
                    let cols = self.cols_in(p, r - 1);
                    self.focused_row = r - 1;
                    self.focused_col = cols - 1;
                } else if p > 0 {
                    let rows = self.rows_in(p - 1);
                    let r2 = if rows > 0 { rows - 1 } else { 0 };
                    let cols = self.cols_in(p - 1, r2);
                    self.focus_to(p - 1, r2, cols - 1, 0);
                } else {
                    let rows = self.rows_in(last_page);
                    let r2 = if rows > 0 { rows - 1 } else { 0 };
                    let cols = self.cols_in(last_page, r2);
                    self.focus_to(last_page, r2, cols - 1, 0);
                }
            },
            _ => {},
        }
    }

    /// Handles one key in the editor and says what the application must do
    /// next.
    pub fn handle_key(&mut self, ev: EditorEvent) -> (a: EditorAction)
        requires
            old(self)@.wf(),
            old(self)@.key_defined(ev),
        ensures
            (final(self)@, a) == old(self)@.step(ev),
    {
        let p = self.active_page;
        proof {
            lemma_view_parts(*self, p as int, self.focused_row as int, self.focused_col as int);
        }
        if ev.ctrl {
            match ev.key {
                Key::Char('s') => EditorAction::Save,
                Key::Char('n') => EditorAction::AddRule,
                Key::Char('d') => {
                    if self.pages[p].len() > 0 {
                        match self.pages[p][self.focused_row].fields[self.focused_col].mapping {
                            FieldMapping::RuleGlob(i) => EditorAction::DeleteRule(i),
                            FieldMapping::RuleTarget(i) => EditorAction::DeleteRule(i),
                            FieldMapping::RuleColors(i) => EditorAction::DeleteRule(i),
                            FieldMapping::RuleIcon(i) => EditorAction::DeleteRule(i),
                            FieldMapping::RuleSpeed(i) => EditorAction::DeleteRule(i),
                            FieldMapping::RuleEasing(i) => EditorAction::DeleteRule(i),
                            _ => EditorAction::Stay,
                        }
                    } else {
                        EditorAction::Stay
                    }
                },
                _ => EditorAction::Stay,
            }
        } else if self.dropdown.is_some() {
            let ghost before = self@;
            match ev.key {
                Key::Esc => {
                    self.dropdown = None;
                    assert(self@ =~= EditorView { dropdown: None, ..before });
                },
                Key::Up => {
                    let d = self.dropdown.take().unwrap();
                    let sel = if d.selected > 0 { d.selected - 1 } else { 0 };
                    self.dropdown = Some(DropdownState { selected: sel, ..d });
                    assert(self@ =~= before.step(ev).0);
                },
                Key::Down => {
                    let d = self.dropdown.take().unwrap();
                    let n = d.options.len();
                    let lim = if n > 0 { n - 1 } else { 0 };
                    let sel = if d.selected + 1 < lim { d.selected + 1 } else { lim };
                    self.dropdown = Some(DropdownState { selected: sel, ..d });
                    assert(self@ =~= before.step(ev).0);
                },
                Key::Enter => {
                    let d = self.dropdown.take().unwrap();
                    assert(strings_view(d.options@)[d.selected as int] == d.options@[d.selected as int]@);
                    let v = copy_string(&d.options[d.selected]);
                    let input = TextInput::new(v);
                    proof {
                        lemma_view_parts(*self, p as int, d.row as int, d.col as int);
                    }
                    set_field_input(&mut self.pages, p, d.row, d.col, input);
                    assert(self@ =~= before.step(ev).0);
                },
                _ => {},
            }
            EditorAction::Stay
        } else {
            match ev.key {
                Key::Esc => EditorAction::Leave,
                Key::Enter => {
                    let ghost before = self@;
                    let r = self.focused_row;
                    let c = self.focused_col;
                    match option_strings(self.pages[p][r].fields[c].kind) {
                        Some(opts) => {
                            self.dropdown = Some(DropdownState { options: opts, selected: 0, row: r, col: c });
                            assert(self@ =~= before.step(ev).0);
                        },
                        None => {},
                    }
                    EditorAction::Stay
                },
                Key::PageUp | Key::PageDown | Key::Up | Key::Down | Key::Tab | Key::BackTab => {
                    self.navigate(ev.key);
                    EditorAction::Stay
                },
                _ => {
                    match ev.edit {
                        Some(req) => {
                            if self.pages[p].len() > 0 {
                                let ghost before = self@;
                                let r = self.focused_row;
                                let c = self.focused_col;
                                let f = &self.pages[p][r].fields[c];
                                let (v, cur) = handle_text_edit(f.input.value.as_str(), f.input.cursor, req);
                                set_field_input(&mut self.pages, p, r, c, TextInput { value: v, cursor: cur });
                                assert(self@ =~= before.step(ev).0);
                            }
                        },
                        None => {},
                    }
                    EditorAction::Stay
                },
            }
        }
    }
}

// ---------------------------------------------------------------------------
// Reading a theme back out of the editor
// ---------------------------------------------------------------------------

/// The fields of a page, row after row.
pub open spec fn flat_rows(rows: Seq<Seq<FieldView>>) -> Seq<FieldView>
    decreases rows.len(),
{
    if rows.len() == 0 {
        seq![]
    } else {
        flat_rows(rows.drop_last()) + rows.last()
    }
}

/// All fields of the editor, page after page.
pub open spec fn flat_pages(pages: Seq<Seq<Seq<FieldView>>>) -> Seq<FieldView>
    decreases pages.len(),
{
    if pages.len() == 0 {
        seq![]
    } else {
        flat_pages(pages.drop_last()) + flat_rows(pages.last())
    }
}

/// How many rules the fields speak of: one past the highest rule position.
pub open spec fn rule_slots(fs: Seq<FieldView>) -> nat
    decreases fs.len(),
{
    if fs.len() == 0 {
        0
    } else {
        let m = rule_slots(fs.drop_last());
        match rule_index(fs.last().mapping) {
            Some(i) => if i + 1 > m {
                (i + 1) as nat
            } else {
                m
            },
            None => m,
        }
    }
}

/// The text of the last field with mapping `m`, if any: later fields win.
pub open spec fn last_value(fs: Seq<FieldView>, m: FieldMapping) -> Option<Seq<char>>
    decreases fs.len(),
{
    if fs.len() == 0 {
        None
    } else if fs.last().mapping == m {
        Some(fs.last().input.value)
    } else {
        last_value(fs.drop_last(), m)
    }
}

/// One rule as read back from the editor: each part is the text of its
/// field, or nothing when no field holds it; the target is already read.
pub struct RuleDraft {
    pub glob: Option<String>,
    pub target: Option<Target>,
    pub colors: Option<String>,
    pub icon: Option<String>,
    pub speed: Option<String>,
    pub easing: Option<String>,
}

/// A theme as read back from the editor, before its numbers are read and
/// the parts no field holds take their defaults.
pub struct ThemeDraft {
    pub name: Option<String>,
    pub branch_colors: Option<String>,
    pub branch_speed: Option<String>,
    pub branch_easing: Option<String>,
    pub dir_colors: Option<String>,
    pub dir_icon: Option<String>,
    pub dir_speed: Option<String>,
    pub dir_easing: Option<String>,
    pub file_colors: Option<String>,
    pub file_icon: Option<String>,
    pub file_speed: Option<String>,
    pub file_easing: Option<String>,
    pub rules: Vec<RuleDraft>,
}

pub open spec fn opt_view(o: Option<String>) -> Option<Seq<char>> {
    match o {
        Some(s) => Some(s@),
        None => None,
    }
}

pub open spec fn opt_target(v: Option<Seq<char>>) -> Option<Target> {
    match v {
        Some(s) => Some(target_named(lowercase(s))),
        None => None,
    }
}

/// Rule `i` of the draft holds what the fields say of rule `i`.
pub open spec fn rule_draft_of(rd: RuleDraft, fs: Seq<FieldView>, i: usize) -> bool {
    &&& opt_view(rd.glob) == last_value(fs, FieldMapping::RuleGlob(i))
    &&& rd.target == opt_target(last_value(fs, FieldMapping::RuleTarget(i)))
    &&& opt_view(rd.colors) == last_value(fs, FieldMapping::RuleColors(i))
    &&& opt_view(rd.icon) == last_value(fs, FieldMapping::RuleIcon(i))
    &&& opt_view(rd.speed) == last_value(fs, FieldMapping::RuleSpeed(i))
    &&& opt_view(rd.easing) == last_value(fs, FieldMapping::RuleEasing(i))
}

/// The draft holds what the fields say, for `n` rules.
pub open spec fn draft_of(d: ThemeDraft, fs: Seq<FieldView>, n: nat) -> bool {
    &&& opt_view(d.name) == last_value(fs, FieldMapping::Name)
    &&& opt_view(d.branch_colors) == last_value(fs, FieldMapping::BranchColors)
    &&& opt_view(d.branch_speed) == last_value(fs, FieldMapping::BranchSpeed)
    &&& opt_view(d.branch_easing) == last_value(fs, FieldMapping::BranchEasing)
    &&& opt_view(d.dir_colors) == last_value(fs, FieldMapping::DirColors)
    &&& opt_view(d.dir_icon) == last_value(fs, FieldMapping::DirIcon)
    &&& opt_view(d.dir_speed) == last_value(fs, FieldMapping::DirSpeed)
    &&& opt_view(d.dir_easing) == last_value(fs, FieldMapping::DirEasing)
    &&& opt_view(d.file_colors) == last_value(fs, FieldMapping::FileColors)
    &&& opt_view(d.file_icon) == last_value(fs, FieldMapping::FileIcon)
    &&& opt_view(d.file_speed) == last_value(fs, FieldMapping::FileSpeed)
    &&& opt_view(d.file_easing) == last_value(fs, FieldMapping::FileEasing)
    &&& d.rules@.len() == n
    &&& forall|i: int| 0 <= i < n ==> rule_draft_of(#[trigger] d.rules@[i], fs, i as usize)
}

/// No field names the rule at the very last position, whose count would
/// not fit.
pub open spec fn rule_positions_fit(fs: Seq<FieldView>) -> bool {
    forall|k: int| 0 <= k < fs.len() ==> (rule_index((#[trigger] fs[k]).mapping) matches Some(i) ==> i < usize::MAX)
}

pub open spec fn fields_view(v: Seq<FormField>) -> Seq<FieldView> {
    v.map_values(|f: FormField| f@)
}

fn copy_field(f: &FormField) -> (g: FormField)
    ensures
        g@ == f@,
{
    FormField {
        mapping: f.mapping,
        label: copy_string(&f.label),
        input: TextInput { value: copy_string(&f.input.value), cursor: f.input.cursor },
        kind: f.kind,
    }
}

/// Copies of all fields of the editor, page after page, row after row.
fn all_fields(pages: &Vec<Vec<FormRow>>) -> (v: Vec<FormField>)
    ensures
        fields_view(v@) == flat_pages(pages_view(pages@)),
{
    let ghost pv = pages_view(pages@);
    let mut v: Vec<FormField> = Vec::new();
    let mut p: usize = 0;
    while p < pages.len()
        invariant
            p <= pages@.len(),
            pv == pages_view(pages@),
            fields_view(v@) == flat_pages(pv.take(p as int)),
        decreases pages@.len() - p,
    {
        let page = &pages[p];
        let ghost rv = page_view(page@);
        assert(pv[p as int] == rv);
        let mut r: usize = 0;
        while r < page.len()
            invariant
                r <= page@.len(),
                p < pages@.len(),
                pv == pages_view(pages@),
                rv == page_view(page@),
                fields_view(v@) == flat_pages(pv.take(p as int)) + flat_rows(rv.take(r as int)),
            decreases page@.len() - r,
        {
            let row = &page[r];
            assert(rv[r as int] == row@);
            let mut f: usize = 0;
            while f < row.fields.len()
                invariant
                    f <= row.fields@.len(),
                    r < page@.len(),
                    rv == page_view(page@),
                    rv[r as int] == row@,
                    fields_view(v@) == flat_pages(pv.take(p as int)) + flat_rows(rv.take(r as int))
                        + row@.take(f as int),
                decreases row.fields@.len() - f,
            {
                let g = copy_field(&row.fields[f]);
                let ghost before = v@;
                v.push(g);
                proof {
                    assert(row@[f as int] == row.fields@[f as int]@);
                    assert(row@.take(f + 1) == row@.take(f as int).push(row@[f as int]));
                    assert(fields_view(v@) =~= fields_view(before).push(g@));
                }
                f = f + 1;
            }
            proof {
                assert(row@.take(row.fields@.len() as int) == row@);
                assert(rv.take(r + 1).drop_last() == rv.take(r as int));
                assert(rv.take(r + 1).last() == rv[r as int]);
            }
            r = r + 1;
        }
        proof {
            assert(rv.take(page@.len() as int) == rv);
            assert(pv.take(p + 1).drop_last() == pv.take(p as int));
            assert(pv.take(p + 1).last() == rv);
        }
        p = p + 1;
    }
    assert(pv.take(pages@.len() as int) == pv);
    v
}

fn field_rule_index(m: FieldMapping) -> (r: Option<usize>)
    ensures
        r == rule_index(m),
{
    match m {
        FieldMapping::RuleGlob(i) => Some(i),
        FieldMapping::RuleTarget(i) => Some(i),
        FieldMapping::RuleColors(i) => Some(i),
        FieldMapping::RuleIcon(i) => Some(i),
        FieldMapping::RuleSpeed(i) => Some(i),
        FieldMapping::RuleEasing(i) => Some(i),
        _ => None,
    }
}

proof fn lemma_rule_slots_cover(fs: Seq<FieldView>, k: int)
    requires
        0 <= k < fs.len(),
    ensures
        rule_index(fs[k].mapping) matches Some(i) ==> i < rule_slots(fs),
    decreases fs.len(),
{
    if k < fs.len() - 1 {
        lemma_rule_slots_cover(fs.drop_last(), k);
        assert(fs.drop_last()[k] == fs[k]);
    }
}

proof fn lemma_last_value_step(fs: Seq<FieldView>, k: int, m: FieldMapping)
    requires
        0 <= k < fs.len(),
    ensures
        last_value(fs.take(k + 1), m) == if fs[k].mapping == m {
            Some(fs[k].input.value)
        } else {
            last_value(fs.take(k), m)
        },
{
    assert(fs.take(k + 1).drop_last() == fs.take(k));
    assert(fs.take(k + 1).last() == fs[k]);
}

fn empty_rule_draft() -> (r: RuleDraft)
    ensures
        r.glob is None && r.target is None && r.colors is None && r.icon is None && r.speed is None
            && r.easing is None,
{
    RuleDraft { glob: None, target: None, colors: None, icon: None, speed: None, easing: None }
}

/// Records one field in the draft, given what the fields before it said.
#[verifier::rlimit(40)]
fn record_field(d: &mut ThemeDraft, f: &FormField, Ghost(prev): Ghost<Seq<FieldView>>, Ghost(next): Ghost<Seq<FieldView>>, count: usize)
    requires
        draft_of(*old(d), prev, count as nat),
        rule_index(f.mapping) matches Some(i) ==> i < count,
        forall|m: FieldMapping| #[trigger] last_value(next, m) == if f.mapping == m {
            Some(f.input.value@)
        } else {
            last_value(prev, m)
        },
    ensures
        draft_of(*final(d), next, count as nat),
{
    let v = copy_string(&f.input.value);
    match f.mapping {
        FieldMapping::Name => d.name = Some(v),
        FieldMapping::BranchColors => d.branch_colors = Some(v),
        FieldMapping::BranchSpeed => d.branch_speed = Some(v),
        FieldMapping::BranchEasing => d.branch_easing = Some(v),
        FieldMapping::DirColors => d.dir_colors = Some(v),
        FieldMapping::DirIcon => d.dir_icon = Some(v),
        FieldMapping::DirSpeed => d.dir_speed = Some(v),
        FieldMapping::DirEasing => d.dir_easing = Some(v),
        FieldMapping::FileColors => d.file_colors = Some(v),
        FieldMapping::FileIcon => d.file_icon = Some(v),
        FieldMapping::FileSpeed => d.file_speed = Some(v),
        FieldMapping::FileEasing => d.file_easing = Some(v),
        FieldMapping::RuleGlob(i) => {
            let mut rd = d.rules.remove(i);
            rd.glob = Some(v);
            d.rules.insert(i, rd);
        },
        FieldMapping::RuleTarget(i) => {
            let mut rd = d.rules.remove(i);
            rd.target = Some(Target::from_str(v.as_str()));
            d.rules.insert(i, rd);
        },
        FieldMapping::RuleColors(i) => {
            let mut rd = d.rules.remove(i);
            rd.colors = Some(v);
            d.rules.insert(i, rd);
        },
        FieldMapping::RuleIcon(i) => {
            let mut rd = d.rules.remove(i);
            rd.icon = Some(v);
            d.rules.insert(i, rd);
        },
        FieldMapping::RuleSpeed(i) => {
            let mut rd = d.rules.remove(i);
            rd.speed = Some(v);
            d.rules.insert(i, rd);
        },
        FieldMapping::RuleEasing(i) => {
            let mut rd = d.rules.remove(i);
            rd.easing = Some(v);
            d.rules.insert(i, rd);
        },
    }
}

impl EditorState {
    /// How many rules the editor's fields speak of.
    fn rule_count(fields: &Vec<FormField>) -> (n: usize)
        requires
            rule_positions_fit(fields_view(fields@)),
        ensures
            n == rule_slots(fields_view(fields@)),
    {
        let ghost fs = fields_view(fields@);
        let mut n: usize = 0;
        let mut k: usize = 0;
        while k < fields.len()
            invariant
                k <= fields@.len(),
                fs == fields_view(fields@),
                rule_positions_fit(fs),
                n == rule_slots(fs.take(k as int)),
            decreases fields@.len() - k,
        {
            proof {
                assert(fs[k as int] == fields@[k as int]@);
                assert(fs.take(k + 1).drop_last() == fs.take(k as int));
                assert(fs.take(k + 1).last() == fs[k as int]);
            }
            match field_rule_index(fields[k].mapping) {
                Some(i) => {
                    if i + 1 > n {
                        n = i + 1;
                    }
                },
                None => {},
            }
            k = k + 1;
        }
        assert(fs.take(fields@.len() as int) == fs);
        n
    }

    /// Reads the theme back out of the editor: for each part of the theme
    /// the text of the last field that holds it, and as many rules as the
    /// highest rule position the fields name.
    pub fn draft_theme(&self) -> (d: ThemeDraft)
        requires
            rule_positions_fit(flat_pages(self@.pages)),
        ensures
            draft_of(d, flat_pages(self@.pages), rule_slots(flat_pages(self@.pages))),
    {
        let fields = all_fields(&self.pages);
        let ghost fs = fields_view(fields@);
        let count = EditorState::rule_count(&fields);
        let mut rules: Vec<RuleDraft> = Vec::new();
        let mut z: usize = 0;
        while z < count
            invariant
                z <= count,
                rules@.len() == z,
                forall|i: int| 0 <= i < z ==> {
                    let r = #[trigger] rules@[i];
                    r.glob is None && r.target is None && r.colors is None && r.icon is None
                        && r.speed is None && r.easing is None
                },
            decreases count - z,
        {
            rules.push(empty_rule_draft());
            z = z + 1;
        }
        let mut d = ThemeDraft {
            name: None,
            branch_colors: None,
            branch_speed: None,
            branch_easing: None,
            dir_colors: None,
            dir_icon: None,
            dir_speed: None,
            dir_easing: None,
            file_colors: None,
            file_icon: None,
            file_speed: None,
            file_easing: None,
            rules,
        };
        proof {
            let e = fs.take(0);
            assert(e.len() == 0);
            assert forall|i: int| 0 <= i < count implies rule_draft_of(#[trigger] d.rules@[i], e, i as usize) by {
                assert(last_value(e, FieldMapping::RuleGlob(i as usize)) is None);
                assert(last_value(e, FieldMapping::RuleTarget(i as usize)) is None);
                assert(last_value(e, FieldMapping::RuleColors(i as usize)) is None);
                assert(last_value(e, FieldMapping::RuleIcon(i as usize)) is None);
                assert(last_value(e, FieldMapping::RuleSpeed(i as usize)) is None);
                assert(last_value(e, FieldMapping::RuleEasing(i as usize)) is None);
            }
        }
        let mut k: usize = 0;
        while k < fields.len()
            invariant
                k <= fields@.len(),
                fs == fields_view(fields@),
                count == rule_slots(fs),
                draft_of(d, fs.take(k as int), count as nat),
            decreases fields@.len() - k,
        {
            let f = &fields[k];
            proof {
                assert(fs[k as int] == f@);
                lemma_rule_slots_cover(fs, k as int);
                assert forall|m: FieldMapping| #[trigger] last_value(fs.take(k + 1), m) == if f.mapping == m {
                    Some(f.input.value@)
                } else {
                    last_value(fs.take(k as int), m)
                } by {
                    lemma_last_value_step(fs, k as int, m);
                }
            }
            record_field(&mut d, f, Ghost(fs.take(k as int)), Ghost(fs.take(k + 1)), count);
            k = k + 1;
        }
        assert(fs.take(fields@.len() as int) == fs);
        d
    }
}

// ---------------------------------------------------------------------------
// Laws of the editor
// ---------------------------------------------------------------------------

proof fn lemma_with_input_shape(pages: Seq<Seq<Seq<FieldView>>>, p: int, r: int, c: int, input: InputView)
    requires
        0 <= p < pages.len(),
        0 <= r < pages[p].len(),
        0 <= c < pages[p][r].len(),
    ensures
        with_input(pages, p, r, c, input).len() == pages.len(),
        forall|q: int| 0 <= q < pages.len() ==> #[trigger] with_input(pages, p, r, c, input)[q].len() == pages[q].len(),
        forall|q: int, s: int|
            0 <= q < pages.len() && 0 <= s < pages[q].len() ==> #[trigger] with_input(pages, p, r, c, input)[q][s].len()
                == pages[q][s].len(),
{
    let w = with_input(pages, p, r, c, input);
    assert forall|q: int, s: int| 0 <= q < pages.len() && 0 <= s < pages[q].len() implies #[trigger] w[q][s].len()
        == pages[q][s].len() by {
        if q == p && s == r {
        }
    }
}

/// Every key the editor accepts leaves it in a consistent state: the focus
/// names a field (or the origin of an empty page) and an open list points
/// at a field and one of its options.
pub proof fn law_step_keeps_wf(ed: EditorView, ev: EditorEvent)
    requires
        ed.wf(),
        ed.key_defined(ev),
    ensures
        ed.step(ev).0.wf(),
{
    let p = ed.active_page as int;
    let r = ed.focused_row as int;
    let c = ed.focused_col as int;
    if ev.ctrl {
    } else if ed.dropdown is Some {
        let d = ed.dropdown->0;
        if ev.key == Key::Enter {
            lemma_with_input_shape(ed.pages, p, d.row as int, d.col as int, InputView {
                value: d.options[d.selected as int],
                cursor: d.options[d.selected as int].len(),
            });
        }
    } else {
        match ev.key {
            Key::Esc | Key::Enter => {},
            Key::PageUp | Key::PageDown | Key::Up | Key::Down | Key::Tab | Key::BackTab => {
                let m = ed.moved(ev.key);
                let np = m.active_page as int;
                if m.rows(np) > 0 && ev.key != Key::BackTab && ev.key != Key::Tab {
                    assert(m.pages[np][m.focused_row as int].len() > 0);
                }
                if ev.key == Key::Tab {
                    assert(ed.pages[p][r].len() > 0);
                    if m.rows(np) > 0 {
                        assert(m.pages[np][0].len() > 0);
                    }
                }
                if ev.key == Key::BackTab {
                    if c == 0 && r > 0 {
                        assert(ed.pages[p][r - 1].len() > 0);
                    } else if c == 0 && r == 0 {
                        let bp = ed.back_page() as int;
                        assert(ed.pages[bp][sat_dec(ed.rows(bp) as int) as int].len() > 0);
                    }
                }
            },
            _ => {
                if ev.edit is Some && ed.rows(p) > 0 {
                    let old = ed.focused_field().input;
                    let h = input_handled(old.value, old.cursor, ev.edit->0);
                    lemma_with_input_shape(ed.pages, p, r, c, InputView { value: h.0, cursor: h.1 });
                }
            },
        }
    }
}

/// Ctrl-D on any field of rule `i` (its glob, target, colours, icon, speed
/// or easing) asks to delete rule `i`, and leaves the editor as it is.
pub proof fn law_ctrl_d_deletes_focused_rule(ed: EditorView, ev: EditorEvent, i: usize)
    requires
        ev.ctrl,
        ev.key == Key::Char('d'),
        ed.rows(ed.active_page as int) > 0,
        ({
            let m = ed.focused_field().mapping;
            ||| m == FieldMapping::RuleGlob(i)
            ||| m == FieldMapping::RuleTarget(i)
            ||| m == FieldMapping::RuleColors(i)
            ||| m == FieldMapping::RuleIcon(i)
            ||| m == FieldMapping::RuleSpeed(i)
            ||| m == FieldMapping::RuleEasing(i)
        }),
    ensures
        ed.step(ev) == (ed, EditorAction::DeleteRule(i)),
{
}

/// Ctrl-D on a field that belongs to no rule (the name and the branch,
/// directory and file styles), or on an empty page, does nothing.
pub proof fn law_ctrl_d_elsewhere_does_nothing(ed: EditorView, ev: EditorEvent)
    requires
        ev.ctrl,
        ev.key == Key::Char('d'),
        ed.rows(ed.active_page as int) == 0 || ({
            let m = ed.focused_field().mapping;
            ||| m == FieldMapping::Name
            ||| m == FieldMapping::BranchColors
            ||| m == FieldMapping::BranchSpeed
            ||| m == FieldMapping::BranchEasing
            ||| m == FieldMapping::DirColors
            ||| m == FieldMapping::DirIcon
            ||| m == FieldMapping::DirSpeed
            ||| m == FieldMapping::DirEasing
            ||| m == FieldMapping::FileColors
            ||| m == FieldMapping::FileIcon
            ||| m == FieldMapping::FileSpeed
            ||| m == FieldMapping::FileEasing
        }),
    ensures
        ed.step(ev) == (ed, EditorAction::Stay),
{
}

/// Ctrl-S asks to save and Ctrl-N to add a rule, whatever is focused, and
/// neither changes the editor.
pub proof fn law_ctrl_s_saves_ctrl_n_adds(ed: EditorView, ev: EditorEvent)
    requires
        ev.ctrl,
    ensures
        ev.key == Key::Char('s') ==> ed.step(ev) == (ed, EditorAction::Save),
        ev.key == Key::Char('n') ==> ed.step(ev) == (ed, EditorAction::AddRule),
{
}

/// Tab followed by BackTab comes back to the same field, when no page is
/// empty.
pub proof fn law_tab_then_backtab(ed: EditorView)
    requires
        ed.wf(),
        forall|q: int| 0 <= q < ed.pages.len() ==> #[trigger] ed.pages[q].len() > 0,
    ensures
        ed.moved(Key::Tab).moved(Key::BackTab).active_page == ed.active_page,
        ed.moved(Key::Tab).moved(Key::BackTab).focused_row == ed.focused_row,
        ed.moved(Key::Tab).moved(Key::BackTab).focused_col == ed.focused_col,
{
    let p = ed.active_page as int;
    assert(ed.pages[p].len() > 0);
    let t = ed.moved(Key::Tab);
    assert(t.pages[t.active_page as int].len() > 0);
}

proof fn lemma_last_value_concat(a: Seq<FieldView>, b: Seq<FieldView>, m: FieldMapping)
    ensures
        last_value(a + b, m) == if last_value(b, m) is Some {
            last_value(b, m)
        } else {
            last_value(a, m)
        },
    decreases b.len(),
{
    if b.len() > 0 {
        assert((a + b).drop_last() == a + b.drop_last());
        lemma_last_value_concat(a, b.drop_last(), m);
    } else {
        assert(a + b == a);
    }
}

proof fn lemma_rule_slots_concat(a: Seq<FieldView>, b: Seq<FieldView>)
    ensures
        rule_slots(a + b) == if rule_slots(a) > rule_slots(b) {
            rule_slots(a)
        } else {
            rule_slots(b)
        },
    decreases b.len(),
{
    if b.len() > 0 {
        assert((a + b).drop_last() == a + b.drop_last());
        lemma_rule_slots_concat(a, b.drop_last());
    } else {
        assert(a + b == a);
    }
}

proof fn lemma_flat_rows_concat(x: Seq<Seq<FieldView>>, y: Seq<Seq<FieldView>>)
    ensures
        flat_rows(x + y) == flat_rows(x) + flat_rows(y),
    decreases y.len(),
{
    if y.len() > 0 {
        assert((x + y).drop_last() == x + y.drop_last());
        lemma_flat_rows_concat(x, y.drop_last());
    } else {
        assert(x + y == x);
    }
}

/// What the fields of the editor say of a theme: each part holds the text it
/// was opened with, and there are as many rules.
pub open spec fn fields_read_back(fs: Seq<FieldView>, t: ThemeText) -> bool {
    &&& rule_slots(fs) == t.rules@.len()
    &&& last_value(fs, FieldMapping::Name) == Some(t.name@)
    &&& last_value(fs, FieldMapping::BranchColors) == Some(t.branch_colors@)
    &&& last_value(fs, FieldMapping::BranchSpeed) == Some(t.branch_speed@)
    &&& last_value(fs, FieldMapping::BranchEasing) == Some(t.branch_easing@)
    &&& last_value(fs, FieldMapping::DirColors) == Some(t.dir_colors@)
    &&& last_value(fs, FieldMapping::DirIcon) == Some(t.dir_icon@)
    &&& last_value(fs, FieldMapping::DirSpeed) == Some(t.dir_speed@)
    &&& last_value(fs, FieldMapping::DirEasing) == Some(t.dir_easing@)
    &&& last_value(fs, FieldMapping::FileColors) == Some(t.file_colors@)
    &&& last_value(fs, FieldMapping::FileIcon) == Some(t.file_icon@)
    &&& last_value(fs, FieldMapping::FileSpeed) == Some(t.file_speed@)
    &&& last_value(fs, FieldMapping::FileEasing) == Some(t.file_easing@)
    &&& forall|i: int|
        0 <= i < t.rules@.len() ==> {
            &&& last_value(fs, FieldMapping::RuleGlob(i as usize)) == Some((#[trigger] t.rules@[i]).glob@)
            &&& last_value(fs, FieldMapping::RuleTarget(i as usize)) == Some(t.rules@[i].target@)
            &&& last_value(fs, FieldMapping::RuleColors(i as usize)) == Some(t.rules@[i].colors@)
            &&& last_value(fs, FieldMapping::RuleIcon(i as usize)) == Some(t.rules@[i].icon@)
            &&& last_value(fs, FieldMapping::RuleSpeed(i as usize)) == Some(t.rules@[i].speed@)
            &&& last_value(fs, FieldMapping::RuleEasing(i as usize)) == Some(t.rules@[i].easing@)
        }
}

proof fn lemma_pair_fields(i: usize, r: RuleText, m: FieldMapping)
    ensures
        ({
            let f = flat_rows(rule_row_pair(i, r));
            &&& rule_slots(f) == i + 1
            &&& last_value(f, m) == match m {
                FieldMapping::RuleGlob(j) => if j == i { Some(r.glob@) } else { None },
                FieldMapping::RuleTarget(j) => if j == i { Some(r.target@) } else { None },
                FieldMapping::RuleColors(j) => if j == i { Some(r.colors@) } else { None },
                FieldMapping::RuleIcon(j) => if j == i { Some(r.icon@) } else { None },
                FieldMapping::RuleSpeed(j) => if j == i { Some(r.speed@) } else { None },
                FieldMapping::RuleEasing(j) => if j == i { Some(r.easing@) } else { None },
                _ => None,
            }
        }),
{
    let pair = rule_row_pair(i, r);
    reveal_with_fuel(flat_rows, 3);
    let f = flat_rows(pair);
    assert(f =~= pair[0] + pair[1]);
    reveal_with_fuel(last_value, 7);
    reveal_with_fuel(rule_slots, 7);
}

proof fn lemma_rule_page_fields(rules: Seq<RuleText>, m: FieldMapping)
    requires
        rules.len() <= usize::MAX,
    ensures
        ({
            let f = flat_rows(rule_page(rules));
            &&& rule_slots(f) == rules.len()
            &&& last_value(f, m) == match rule_index(m) {
                Some(j) => if j < rules.len() {
                    match m {
                        FieldMapping::RuleGlob(_) => Some(rules[j as int].glob@),
                        FieldMapping::RuleTarget(_) => Some(rules[j as int].target@),
                        FieldMapping::RuleColors(_) => Some(rules[j as int].colors@),
                        FieldMapping::RuleIcon(_) => Some(rules[j as int].icon@),
                        FieldMapping::RuleSpeed(_) => Some(rules[j as int].speed@),
                        _ => Some(rules[j as int].easing@),
                    }
                } else {
                    None
                },
                None => None,
            }
        }),
    decreases rules.len(),
{
    if rules.len() > 0 {
        let prev = rules.drop_last();
        let i = (rules.len() - 1) as usize;
        lemma_rule_page_fields(prev, m);
        lemma_flat_rows_concat(rule_page(prev), rule_row_pair(i, rules.last()));
        lemma_pair_fields(i, rules.last(), m);
        lemma_last_value_concat(flat_rows(rule_page(prev)), flat_rows(rule_row_pair(i, rules.last())), m);
        lemma_rule_slots_concat(flat_rows(rule_page(prev)), flat_rows(rule_row_pair(i, rules.last())));
        match rule_index(m) {
            Some(j) => {
                if j < prev.len() {
                    assert(prev[j as int] == rules[j as int]);
                }
            },
            None => {},
        }
    } else {
        assert(flat_rows(rule_page(rules)) == Seq::<FieldView>::empty());
    }
}

proof fn lemma_general_fields(t: ThemeText, m: FieldMapping)
    ensures
        ({
            let f = flat_rows(general_page(t));
            &&& rule_slots(f) == 0
            &&& rule_index(m) is Some ==> last_value(f, m) is None
        }),
{
    let g = general_page(t);
    reveal_with_fuel(flat_rows, 5);
    assert(g.drop_last().drop_last().drop_last().drop_last().len() == 0);
    let f = flat_rows(g);
    assert(f =~= ((g[0] + g[1]) + g[2]) + g[3]);
    assert forall|k: int| 0 <= k < f.len() implies rule_index((#[trigger] f[k]).mapping) is None by {}
    lemma_general_value(t, m);
    lemma_no_rules(f);
}

proof fn lemma_no_rules(f: Seq<FieldView>)
    requires
        forall|k: int| 0 <= k < f.len() ==> rule_index((#[trigger] f[k]).mapping) is None,
    ensures
        rule_slots(f) == 0,
    decreases f.len(),
{
    if f.len() > 0 {
        assert forall|k: int| 0 <= k < f.drop_last().len() implies rule_index((#[trigger] f.drop_last()[k]).mapping) is None by {
            assert(f.drop_last()[k] == f[k]);
        }
        lemma_no_rules(f.drop_last());
        assert(rule_index(f[f.len() - 1].mapping) is None);
    }
}

pub open spec fn general_value(t: ThemeText, m: FieldMapping) -> Option<Seq<char>> {
    match m {
        FieldMapping::Name => Some(t.name@),
        FieldMapping::BranchColors => Some(t.branch_colors@),
        FieldMapping::BranchSpeed => Some(t.branch_speed@),
        FieldMapping::BranchEasing => Some(t.branch_easing@),
        FieldMapping::DirColors => Some(t.dir_colors@),
        FieldMapping::DirIcon => Some(t.dir_icon@),
        FieldMapping::DirSpeed => Some(t.dir_speed@),
        FieldMapping::DirEasing => Some(t.dir_easing@),
        FieldMapping::FileColors => Some(t.file_colors@),
        FieldMapping::FileIcon => Some(t.file_icon@),
        FieldMapping::FileSpeed => Some(t.file_speed@),
        FieldMapping::FileEasing => Some(t.file_easing@),
        _ => None,
    }
}

proof fn lemma_row_value(row: Seq<FieldView>, m: FieldMapping)
    requires
        row.len() <= 4,
    ensures
        last_value(row, m) == if row.len() >= 4 && row[3].mapping == m {
            Some(row[3].input.value)
        } else if row.len() >= 3 && row[2].mapping == m {
            Some(row[2].input.value)
        } else if row.len() >= 2 && row[1].mapping == m {
            Some(row[1].input.value)
        } else if row.len() >= 1 && row[0].mapping == m {
            Some(row[0].input.value)
        } else {
            None
        },
{
    reveal_with_fuel(last_value, 5);
    if row.len() == 4 {
        assert(row.drop_last().drop_last().drop_last() =~= seq![row[0]]);
        assert(row.drop_last().drop_last().drop_last().drop_last().len() == 0);
    } else if row.len() == 3 {
        assert(row.drop_last().drop_last() =~= seq![row[0]]);
        assert(row.drop_last().drop_last().drop_last().len() == 0);
    } else if row.len() == 2 {
        assert(row.drop_last() =~= seq![row[0]]);
        assert(row.drop_last().drop_last().len() == 0);
    } else if row.len() == 1 {
        assert(row.drop_last().len() == 0);
    }
}

proof fn lemma_general_value(t: ThemeText, m: FieldMapping)
    ensures
        last_value(flat_rows(general_page(t)), m) == general_value(t, m),
{
    let g = general_page(t);
    reveal_with_fuel(flat_rows, 5);
    assert(g.drop_last().drop_last().drop_last().drop_last().len() == 0);
    assert(flat_rows(g) =~= ((g[0] + g[1]) + g[2]) + g[3]);
    lemma_last_value_concat((g[0] + g[1]) + g[2], g[3], m);
    lemma_last_value_concat(g[0] + g[1], g[2], m);
    lemma_last_value_concat(g[0], g[1], m);
    lemma_row_value(g[0], m);
    lemma_row_value(g[1], m);
    lemma_row_value(g[2], m);
    lemma_row_value(g[3], m);
}

/// Reading the theme back out of a freshly opened editor gives back every
/// text it was opened with, and as many rules.
pub proof fn law_editor_reads_back_theme(t: ThemeText, path: std::path::PathBuf, page: nat)
    ensures
        fields_read_back(flat_pages(built_editor(t, path, page).pages), t),
{
    assert(t.rules@.len() == t.rules.len());
    let g = general_page(t);
    let rp = rule_page(t.rules@);
    let pages = built_editor(t, path, page).pages;
    reveal_with_fuel(flat_pages, 3);
    assert(pages.drop_last().drop_last() == Seq::<Seq<Seq<FieldView>>>::empty());
    assert(pages.drop_last().last() == g);
    assert(pages.last() == rp);
    let fs = flat_pages(pages);
    assert(fs =~= flat_rows(g) + flat_rows(rp));
    lemma_rule_slots_concat(flat_rows(g), flat_rows(rp));
    lemma_general_fields(t, FieldMapping::Name);
    lemma_rule_page_fields(t.rules@, FieldMapping::Name);
    assert forall|m: FieldMapping| #[trigger] last_value(fs, m) == if last_value(flat_rows(rp), m) is Some {
        last_value(flat_rows(rp), m)
    } else {
        last_value(flat_rows(g), m)
    } by {
        lemma_last_value_concat(flat_rows(g), flat_rows(rp), m);
    }
    assert forall|m: FieldMapping| rule_index(m) is None implies #[trigger] last_value(flat_rows(rp), m) is None by {
        lemma_rule_page_fields(t.rules@, m);
    }
    assert forall|m: FieldMapping| rule_index(m) is None implies #[trigger] last_value(fs, m) == general_value(t, m) by {
        lemma_general_value(t, m);
    }
    assert forall|m: FieldMapping| rule_index(m) is Some implies #[trigger] last_value(flat_rows(g), m) is None by {
        lemma_general_fields(t, m);
    }
    assert forall|i: int| 0 <= i < t.rules@.len() implies {
        &&& last_value(fs, FieldMapping::RuleGlob(i as usize)) == Some((#[trigger] t.rules@[i]).glob@)
        &&& last_value(fs, FieldMapping::RuleTarget(i as usize)) == Some(t.rules@[i].target@)
        &&& last_value(fs, FieldMapping::RuleColors(i as usize)) == Some(t.rules@[i].colors@)
        &&& last_value(fs, FieldMapping::RuleIcon(i as usize)) == Some(t.rules@[i].icon@)
        &&& last_value(fs, FieldMapping::RuleSpeed(i as usize)) == Some(t.rules@[i].speed@)
        &&& last_value(fs, FieldMapping::RuleEasing(i as usize)) == Some(t.rules@[i].easing@)
    } by {
        lemma_rule_page_fields(t.rules@, FieldMapping::RuleGlob(i as usize));
        lemma_rule_page_fields(t.rules@, FieldMapping::RuleTarget(i as usize));
        lemma_rule_page_fields(t.rules@, FieldMapping::RuleColors(i as usize));
        lemma_rule_page_fields(t.rules@, FieldMapping::RuleIcon(i as usize));
        lemma_rule_page_fields(t.rules@, FieldMapping::RuleSpeed(i as usize));
        lemma_rule_page_fields(t.rules@, FieldMapping::RuleEasing(i as usize));
    }
}

/// `a` and `b` have the same name and the same branch, directory and file
/// texts.
pub open spec fn same_general_text(a: ThemeText, b: ThemeText) -> bool {
    &&& a.name@ == b.name@
    &&& a.branch_colors@ == b.branch_colors@
    &&& a.branch_speed@ == b.branch_speed@
    &&& a.branch_easing@ == b.branch_easing@
    &&& a.dir_colors@ == b.dir_colors@
    &&& a.dir_icon@ == b.dir_icon@
    &&& a.dir_speed@ == b.dir_speed@
    &&& a.dir_easing@ == b.dir_easing@
    &&& a.file_colors@ == b.file_colors@
    &&& a.file_icon@ == b.file_icon@
    &&& a.file_speed@ == b.file_speed@
    &&& a.file_easing@ == b.file_easing@
}

/// Adding a rule (Ctrl-N): the editor reopened on the rules page of the
/// theme with rule `r` appended reads back the old theme's texts, its rules
/// in order, then `r`; the rules page has two rows per rule, so its last row
/// is row `2n + 1` for `n` old rules.
pub proof fn law_added_rule_reads_back(t: ThemeText, t2: ThemeText, r: RuleText, path: std::path::PathBuf)
    requires
        same_general_text(t, t2),
        t2.rules@ == t.rules@.push(r),
    ensures
        ({
            let ed = built_editor(t2, path, 1);
            let fs = flat_pages(ed.pages);
            &&& fields_read_back(fs, t2)
            &&& rule_slots(fs) == t.rules@.len() + 1
            &&& forall|i: int| 0 <= i < t.rules@.len() ==> last_value(fs, FieldMapping::RuleGlob(i as usize)) == Some(
                (#[trigger] t.rules@[i]).glob@,
            )
            &&& last_value(fs, FieldMapping::RuleGlob(t.rules@.len() as usize)) == Some(r.glob@)
            &&& last_value(fs, FieldMapping::RuleColors(t.rules@.len() as usize)) == Some(r.colors@)
            &&& ed.active_page == 1
            &&& sat_dec(ed.rows(1) as int) == 2 * t.rules@.len() + 1
        }),
{
    law_editor_reads_back_theme(t2, path, 1);
    lemma_rule_page_rows(t2.rules@);
    let fs = flat_pages(built_editor(t2, path, 1).pages);
    assert forall|i: int| 0 <= i < t.rules@.len() implies last_value(fs, FieldMapping::RuleGlob(i as usize)) == Some(
        (#[trigger] t.rules@[i]).glob@,
    ) by {
        assert(t2.rules@[i] == t.rules@[i]);
    }
    assert(t2.rules@[t.rules@.len() as int] == r);
}

/// Deleting rule `i` (Ctrl-D): the editor reopened on the theme without
/// that rule reads back the old theme's texts and its other rules, in order.
pub proof fn law_deleted_rule_reads_back(t: ThemeText, t2: ThemeText, i: int, path: std::path::PathBuf, page: nat)
    requires
        same_general_text(t, t2),
        0 <= i < t.rules@.len(),
        t2.rules@ == t.rules@.remove(i),
    ensures
        ({
            let fs = flat_pages(built_editor(t2, path, page).pages);
            &&& fields_read_back(fs, t2)
            &&& rule_slots(fs) == t.rules@.len() - 1
            &&& forall|j: int| 0 <= j < i ==> last_value(fs, FieldMapping::RuleGlob(j as usize)) == Some(
                (#[trigger] t.rules@[j]).glob@,
            )
            &&& forall|j: int| i < j < t.rules@.len() ==> last_value(fs, FieldMapping::RuleGlob((j - 1) as usize)) == Some(
                (#[trigger] t.rules@[j]).glob@,
            )
        }),
{
    law_editor_reads_back_theme(t2, path, page);
    let fs = flat_pages(built_editor(t2, path, page).pages);
    assert forall|j: int| 0 <= j < i implies last_value(fs, FieldMapping::RuleGlob(j as usize)) == Some(
        (#[trigger] t.rules@[j]).glob@,
    ) by {
        assert(t2.rules@[j] == t.rules@[j]);
    }
    assert forall|j: int| i < j < t.rules@.len() implies last_value(fs, FieldMapping::RuleGlob((j - 1) as usize)) == Some(
        (#[trigger] t.rules@[j]).glob@,
    ) by {
        assert(t2.rules@[j - 1] == t.rules@[j]);
    }
}

impl EditorState {
    /// Whether no field names the rule at the very last position.
    pub fn rule_positions_hold(&self) -> (b: bool)
        ensures
            b == rule_positions_fit(flat_pages(self@.pages)),
    {
        let fields = all_fields(&self.pages);
        let ghost fs = fields_view(fields@);
        let mut k: usize = 0;
        while k < fields.len()
            invariant
                k <= fields@.len(),
                fs == fields_view(fields@),
                fs == flat_pages(self@.pages),
                forall|j: int| 0 <= j < k ==> (rule_index((#[trigger] fs[j]).mapping) matches Some(i) ==> i < usize::MAX),
            decreases fields@.len() - k,
        {
            assert(fs[k as int] == fields@[k as int]@);
            match field_rule_index(fields[k].mapping) {
                Some(i) => {
                    if i == usize::MAX {
                        assert(!(rule_index(fs[k as int].mapping) matches Some(j) ==> j < usize::MAX));
                        return false;
                    }
                },
                None => {},
            }
            k = k + 1;
        }
        true
    }
}

// ---------------------------------------------------------------------------
// Scrolling the editor
// ---------------------------------------------------------------------------

/// The height a row takes on screen: a heading line when it opens a
/// section, the input line and a blank line.
pub open spec fn row_height(row: Seq<FieldView>) -> nat {
    if row.len() > 0 && row_title(row[0].mapping) is Some {
        3
    } else {
        2
    }
}

/// How many rows from row `s` on fit in `avail` lines, `used` lines and
/// `count` rows being taken already; the first row is always shown.
pub open spec fn rows_fitting(page: Seq<Seq<FieldView>>, s: int, used: nat, count: nat, avail: nat) -> nat
    decreases page.len() - s,
{
    if s < 0 || s >= page.len() {
        count
    } else {
        let h = row_height(page[s]);
        if used + h > avail && count > 0 {
            count
        } else {
            rows_fitting(page, s + 1, used + h, count + 1, avail)
        }
    }
}

/// How many rows are shown from row `s` on.
pub open spec fn visible_from(page: Seq<Seq<FieldView>>, s: int, avail: nat) -> nat {
    rows_fitting(page, s, 0, 0, avail)
}

/// The first row shown once the focused row is brought into view: back to
/// the focused row when it is above the view, else one row further down at
/// a time until it is shown.
pub open spec fn settle_scroll(page: Seq<Seq<FieldView>>, scroll: nat, focused: nat, avail: nat) -> nat
    decreases (if scroll <= focused { focused - scroll } else { focused + 1int }),
{
    if focused < scroll {
        settle_scroll(page, focused, focused, avail)
    } else if focused >= scroll + visible_from(page, scroll as int, avail) && visible_from(
        page,
        scroll as int,
        avail,
    ) > 0 {
        settle_scroll(page, scroll + 1, focused, avail)
    } else {
        scroll
    }
}

/// Every row that counting the rows shown from row `s` reads has a field:
/// the rows that fit, and the first one that does not.
pub open spec fn rows_read_have_fields(page: Seq<Seq<FieldView>>, s: int, used: nat, count: nat, avail: nat) -> bool
    decreases page.len() - s,
{
    if s < 0 || s >= page.len() {
        true
    } else {
        let h = row_height(page[s]);
        &&& page[s].len() > 0
        &&& (used + h > avail && count > 0 || rows_read_have_fields(page, s + 1, used + h, count + 1, avail))
    }
}

/// Every row that settling the first shown row reads has a field: the rows
/// counted from each first row it tries.
pub open spec fn scroll_reads_fields(page: Seq<Seq<FieldView>>, scroll: nat, focused: nat, avail: nat) -> bool
    decreases (if scroll <= focused { focused - scroll } else { focused + 1int }),
{
    &&& rows_read_have_fields(page, scroll as int, 0, 0, avail)
    &&& if focused < scroll {
        scroll_reads_fields(page, focused, focused, avail)
    } else if focused >= scroll + visible_from(page, scroll as int, avail) && visible_from(
        page,
        scroll as int,
        avail,
    ) > 0 {
        scroll_reads_fields(page, scroll + 1, focused, avail)
    } else {
        true
    }
}

proof fn lemma_rows_fitting_bound(page: Seq<Seq<FieldView>>, s: int, used: nat, count: nat, avail: nat)
    requires
        0 <= s,
    ensures
        count <= rows_fitting(page, s, used, count, avail) <= count + if s < page.len() {
            page.len() - s
        } else {
            0
        },
        0 <= s < page.len() ==> rows_fitting(page, s, used, count, avail) >= 1,
    decreases page.len() - s,
{
    if 0 <= s < page.len() {
        let h = row_height(page[s]);
        if !(used + h > avail && count > 0) {
            lemma_rows_fitting_bound(page, s + 1, used + h, count + 1, avail);
        }
    }
}

/// Bringing the focused row into view shows it: the first row shown is the
/// focused row when it lay above the view, and otherwise the least first
/// row, from the old one on, under which the focused row is shown.
pub proof fn law_scroll_shows_focus(page: Seq<Seq<FieldView>>, s: nat, f: nat, avail: nat)
    requires
        f < page.len(),
        s <= page.len(),
    ensures
        ({
            let r = settle_scroll(page, s, f, avail);
            &&& r <= f < r + visible_from(page, r as int, avail)
            &&& f < s ==> r == f
            &&& s <= f ==> s <= r && forall|t: nat|
                s <= t < r ==> f >= t + #[trigger] visible_from(page, t as int, avail)
        }),
    decreases (if s <= f { f - s } else { f + 1int }),
{
    if f < s {
        law_scroll_shows_focus(page, f, f, avail);
    } else {
        lemma_rows_fitting_bound(page, s as int, 0, 0, avail);
        let v = visible_from(page, s as int, avail);
        if f >= s + v && v > 0 {
            law_scroll_shows_focus(page, s + 1, f, avail);
        }
    }
}

impl EditorState {
    /// Whether row `r` of the active page opens a section.
    fn row_is_header(&self, r: usize) -> (b: bool)
        requires
            self.active_page < self@.pages.len(),
            r < self@.rows(self.active_page as int),
            self@.pages[self.active_page as int][r as int].len() > 0,
        ensures
            b == (row_height(self@.pages[self.active_page as int][r as int]) == 3),
    {
        proof {
            lemma_view_parts(*self, self.active_page as int, r as int, 0);
        }
        let row = &self.pages[self.active_page][r];
        let title = opens_section(&row.fields[0].mapping);
        title
    }

    /// How many rows of the active page are shown from row `from` on, in
    /// `available_height` lines.
    pub fn rows_shown_from(&self, from: usize, available_height: u16) -> (n: usize)
        requires
            self.active_page < self@.pages.len(),
            rows_read_have_fields(self@.pages[self.active_page as int], from as int, 0, 0, available_height as nat),
        ensures
            n == visible_from(self@.pages[self.active_page as int], from as int, available_height as nat),
    {
        let ghost page = self@.pages[self.active_page as int];
        proof {
            lemma_view_parts(*self, self.active_page as int, 0, 0);
        }
        let len = self.pages[self.active_page].len();
        let mut used: u32 = 0;
        let mut count: usize = 0;
        let mut r = from;
        while r < len
            invariant
                self.active_page < self@.pages.len(),
                rows_read_have_fields(page, r as int, used as nat, count as nat, available_height as nat),
                page == self@.pages[self.active_page as int],
                len == page.len(),
                from <= r,
                count == r - from,
                used <= if available_height > 3 { available_height as u32 } else { 3 },
                count == 0 ==> used == 0,
                visible_from(page, from as int, available_height as nat) == rows_fitting(page, r as int, used as nat, count as nat, available_height as nat),
            decreases len - r,
        {
            assert(page[r as int].len() > 0);
            let needed: u32 = if self.row_is_header(r) { 3 } else { 2 };
            if used + needed > available_height as u32 && count > 0 {
                return count;
            }
            used = used + needed;
            count = count + 1;
            r = r + 1;
        }
        count
    }

    /// Moves the first row shown so that the focused row is in view.
    pub fn scroll_into_view(&mut self, available_height: u16)
        requires
            old(self)@.scroll_ready(available_height as nat),
        ensures
            final(self)@ == (EditorView {
                scroll_offset: settle_scroll(
                    old(self)@.pages[old(self).active_page as int],
                    old(self).scroll_offset as nat,
                    old(self).focused_row as nat,
                    available_height as nat,
                ),
                ..old(self)@
            }),
            rows_read_have_fields(
                final(self)@.pages[final(self).active_page as int],
                final(self).scroll_offset as int,
                0,
                0,
                available_height as nat,
            ),
    {
        let ghost page = self@.pages[self.active_page as int];
        let ghost target = settle_scroll(page, self.scroll_offset as nat, self.focused_row as nat, available_height as nat);
        let ghost start = self@;
        loop
            invariant
                self.active_page < self@.pages.len(),
                self@ == (EditorView { scroll_offset: self.scroll_offset as nat, ..start }),
                page == self@.pages[self.active_page as int],
                self.focused_row < page.len(),
                self.scroll_offset <= page.len(),
                scroll_reads_fields(page, self.scroll_offset as nat, self.focused_row as nat, available_height as nat),
                settle_scroll(page, self.scroll_offset as nat, self.focused_row as nat, available_height as nat) == target,
            ensures
                self.scroll_offset == target,
                self@ == (EditorView { scroll_offset: self.scroll_offset as nat, ..start }),
                rows_read_have_fields(page, self.scroll_offset as int, 0, 0, available_height as nat),
            decreases (if self.scroll_offset <= self.focused_row { self.focused_row - self.scroll_offset } else { self.focused_row + 1 }),
        {
            let visible = self.rows_shown_from(self.scroll_offset, available_height);
            let len = self.rows_in(self.active_page);
            proof {
                lemma_rows_fitting_bound(page, self.scroll_offset as int, 0, 0, available_height as nat);
            }
            if self.focused_row < self.scroll_offset {
                self.scroll_offset = self.focused_row;
            } else if self.focused_row >= self.scroll_offset + visible {
                self.scroll_offset = self.scroll_offset + 1;
            } else {
                break;
            }
        }
    }
}

/// Whether a row whose first field has this mapping opens a section.
fn opens_section(mapping: &FieldMapping) -> (b: bool)
    ensures
        b == row_title(*mapping) is Some,
{
    match mapping {
        FieldMapping::Name | FieldMapping::BranchColors | FieldMapping::DirColors | FieldMapping::FileColors
        | FieldMapping::RuleGlob(_) => true,
        _ => false,
    }
}

impl EditorState {
    /// Whether the editor is in a consistent state (`EditorView::wf`).
    pub fn wf_holds(&self) -> (b: bool)
        ensures
            b == self@.wf(),
    {
        let np = self.pages.len();
        if self.active_page >= np {
            return false;
        }
        let mut p: usize = 0;
        while p < np
            invariant
                p <= np == self.pages@.len(),
                forall|q: int, r: int|
                    0 <= q < p && 0 <= r < self@.pages[q].len() ==> #[trigger] self@.pages[q][r].len() > 0,
            decreases np - p,
        {
            let rows = self.rows_in(p);
            let mut r: usize = 0;
            while r < rows
                invariant
                    p < np == self.pages@.len(),
                    rows == self@.rows(p as int),
                    r <= rows,
                    forall|q: int, t: int|
                        0 <= q < p && 0 <= t < self@.pages[q].len() ==> #[trigger] self@.pages[q][t].len() > 0,
                    forall|t: int| 0 <= t < r ==> #[trigger] self@.pages[p as int][t].len() > 0,
                decreases rows - r,
            {
                if self.cols_in(p, r) == 0 {
                    return false;
                }
                r = r + 1;
            }
            proof {
                assert forall|q: int, t: int|
                    0 <= q < p + 1 && 0 <= t < self@.pages[q].len() implies #[trigger] self@.pages[q][t].len() > 0 by {
                    if q == p {
                        assert(self@.pages[p as int][t].len() > 0);
                    }
                }
            }
            p = p + 1;
        }
        let ap = self.active_page;
        let rows = self.rows_in(ap);
        if rows == 0 {
            if self.focused_row != 0 || self.focused_col != 0 {
                return false;
            }
        } else {
            if self.focused_row >= rows || self.focused_col >= self.cols_in(ap, self.focused_row) {
                return false;
            }
        }
        match &self.dropdown {
            Some(d) => {
                if d.selected >= d.options.len() || d.row >= rows || d.col >= self.cols_in(ap, d.row) {
                    return false;
                }
            },
            None => {},
        }
        true
    }

    /// Whether counting the rows shown from row `from` of the active page
    /// finds a field in every row it reads.
    fn rows_read_hold(&self, from: usize, available_height: u16) -> (b: bool)
        requires
            self.active_page < self@.pages.len(),
        ensures
            b == rows_read_have_fields(self@.pages[self.active_page as int], from as int, 0, 0, available_height as nat),
    {
        let ghost page = self@.pages[self.active_page as int];
        let len = self.rows_in(self.active_page);
        let mut used: u32 = 0;
        let mut count: usize = 0;
        let mut r = from;
        while r < len
            invariant
                self.active_page < self@.pages.len(),
                page == self@.pages[self.active_page as int],
                len == page.len(),
                from <= r,
                count == r - from,
                used <= if available_height > 3 { available_height as u32 } else { 3 },
                count == 0 ==> used == 0,
                rows_read_have_fields(page, from as int, 0, 0, available_height as nat) == rows_read_have_fields(
                    page,
                    r as int,
                    used as nat,
                    count as nat,
                    available_height as nat,
                ),
            decreases len - r,
        {
            if self.cols_in(self.active_page, r) == 0 {
                return false;
            }
            let needed: u32 = if self.row_is_header(r) { 3 } else { 2 };
            if used + needed > available_height as u32 && count > 0 {
                return true;
            }
            used = used + needed;
            count = count + 1;
            r = r + 1;
        }
        true
    }

    /// Whether the focused row can be brought into view in
    /// `available_height` lines (`EditorView::scroll_ready`).
    pub fn scroll_ready_holds(&self, available_height: u16) -> (b: bool)
        ensures
            b == self@.scroll_ready(available_height as nat),
    {
        if self.active_page >= self.pages.len() {
            return false;
        }
        let rows = self.rows_in(self.active_page);
        if self.focused_row >= rows || self.scroll_offset > rows {
            return false;
        }
        let ghost page = self@.pages[self.active_page as int];
        let ghost avail = available_height as nat;
        let f = self.focused_row;
        let mut s = self.scroll_offset;
        loop
            invariant
                self.active_page < self@.pages.len(),
                page == self@.pages[self.active_page as int],
                rows == page.len(),
                f == self.focused_row,
                avail == available_height as nat,
                f < rows,
                s <= rows,
                self.scroll_offset <= rows,
                scroll_reads_fields(page, self.scroll_offset as nat, f as nat, avail) == scroll_reads_fields(
                    page,
                    s as nat,
                    f as nat,
                    avail,
                ),
                self@.scroll_ready(avail) == (self.scroll_offset <= rows && scroll_reads_fields(
                    page,
                    self.scroll_offset as nat,
                    f as nat,
                    avail,
                )),
            decreases (if s <= f { f - s } else { f + 1 }),
        {
            if !self.rows_read_hold(s, available_height) {
                assert(!scroll_reads_fields(page, s as nat, f as nat, avail));
                return false;
            }
            let visible = self.rows_shown_from(s, available_height);
            proof {
                lemma_rows_fitting_bound(page, s as int, 0, 0, avail);
            }
            let ghost before = s;
            if f < s {
                s = f;
                assert(scroll_reads_fields(page, before as nat, f as nat, avail) == scroll_reads_fields(page, s as nat, f as nat, avail));
            } else if f >= s + visible {
                s = s + 1;
                assert(scroll_reads_fields(page, before as nat, f as nat, avail) == scroll_reads_fields(page, s as nat, f as nat, avail));
            } else {
                assert(scroll_reads_fields(page, s as nat, f as nat, avail));
                return true;
            }
        }
    }

    /// Whether the editor can take this key without indexing a field that
    /// does not exist (`EditorView::key_defined`).
    pub fn key_is_defined(&self, ev: &EditorEvent) -> (b: bool)
        requires
            self@.wf(),
        ensures
            b == self@.key_defined(*ev),
    {
        if ev.ctrl || self.dropdown.is_some() {
            return true;
        }
        let rows = self.rows_in(self.active_page);
        match ev.key {
            Key::Enter | Key::Tab => rows > 0,
            Key::BackTab => {
                if self.focused_col > 0 || self.focused_row > 0 {
                    true
                } else {
                    let np = self.pages.len();
                    let bp = if self.active_page > 0 { self.active_page - 1 } else if np > 0 { np - 1 } else { 0 };
                    self.rows_in(bp) > 0
                }
            },
            _ => true,
        }
    }
}

} // verus!
