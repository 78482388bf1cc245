use vstd::prelude::*;

use crate::color::{gradient, gradient_cuts_hold, gradient_cuts_ok, invalid_hex_count, invalid_pieces, parse_gradient, split_on, ThemeColor};
use crate::editor::{rule_index, FieldMapping};
use crate::text::{copy_string, push_str, string_of};
use crate::theme::{glob_is_valid, glob_compiles, preview_name, preview_name_of, Easing, EasingView, Theme, ThemeView};
use crate::tree::SPEED_ONE_BITS;

verus! {

/// What the preview panel reports wrong with the focused part of a theme.
#[derive(Clone, Copy, Debug, PartialEq, Eq, Structural)]
pub enum PreviewProblem {
    /// The rule's glob does not compile.
    InvalidGlob,
    /// One piece of the colour list is not a `#RRGGBB` colour.
    InvalidHex,
}

/// What the preview panel shows for the focused field: a sample name and
/// icon, the gradient, speed and easing they are drawn with, and the
/// problems found.
pub struct Preview {
    pub text: String,
    pub icon: String,
    pub colors: Vec<ThemeColor>,
    pub speed: u32,
    pub easing: Easing,
    pub problems: Vec<PreviewProblem>,
}

/// The mathematical value of a [`Preview`].
pub struct PreviewView {
    pub text: Seq<char>,
    pub icon: Seq<char>,
    pub colors: Seq<ThemeColor>,
    pub speed: u32,
    pub easing: EasingView,
    pub problems: Seq<PreviewProblem>,
}

impl View for Preview {
    type V = PreviewView;

    open spec fn view(&self) -> PreviewView {
        PreviewView {
            text: self.text@,
            icon: self.icon@,
            colors: self.colors@,
            speed: self.speed,
            easing: self.easing@,
            problems: self.problems@,
        }
    }
}

/// The colour list the preview of a field reads: none for the theme's
/// name, else the list of the section or rule the field belongs to.
pub open spec fn previewed_list(t: ThemeView, m: FieldMapping) -> Option<Seq<char>> {
    match m {
        FieldMapping::Name => None,
        FieldMapping::BranchColors | FieldMapping::BranchSpeed | FieldMapping::BranchEasing => Some(t.branch_colors),
        FieldMapping::DirColors | FieldMapping::DirIcon | FieldMapping::DirSpeed | FieldMapping::DirEasing => Some(t.dir_colors),
        FieldMapping::FileColors | FieldMapping::FileIcon | FieldMapping::FileSpeed | FieldMapping::FileEasing => Some(t.file_colors),
        _ => Some(t.rules[rule_index(m)->0 as int].colors),
    }
}

/// One `InvalidHex` per piece of the list that is not a colour.
pub open spec fn hex_problems(list: Seq<char>) -> Seq<PreviewProblem> {
    Seq::new(invalid_pieces(split_on(list, ',')), |_i: int| PreviewProblem::InvalidHex)
}

/// The preview of field `m` of theme `t`.
pub open spec fn preview_of(t: ThemeView, m: FieldMapping) -> PreviewView {
    match m {
        FieldMapping::Name => PreviewView {
            text: "Editing Theme: "@ + t.name,
            icon: "\u{1f3f7}\u{fe0f} "@,
            colors: seq![ThemeColor::White],
            speed: SPEED_ONE_BITS,
            easing: EasingView::Preset("linear"@),
            problems: seq![],
        },
        FieldMapping::BranchColors | FieldMapping::BranchSpeed | FieldMapping::BranchEasing => PreviewView {
            text: "├── └── │   (Branch formatting preview)"@,
            icon: seq![],
            colors: gradient(t.branch_colors),
            speed: t.branch_speed,
            easing: t.branch_easing,
            problems: hex_problems(t.branch_colors),
        },
        FieldMapping::DirColors | FieldMapping::DirIcon | FieldMapping::DirSpeed | FieldMapping::DirEasing => PreviewView {
            text: "example_folder"@,
            icon: t.dir_icon,
            colors: gradient(t.dir_colors),
            speed: t.dir_speed,
            easing: t.dir_easing,
            problems: hex_problems(t.dir_colors),
        },
        FieldMapping::FileColors | FieldMapping::FileIcon | FieldMapping::FileSpeed | FieldMapping::FileEasing => PreviewView {
            text: "example_file.txt"@,
            icon: t.file_icon,
            colors: gradient(t.file_colors),
            speed: t.file_speed,
            easing: t.file_easing,
            problems: hex_problems(t.file_colors),
        },
        _ => {
            let r = t.rules[rule_index(m)->0 as int];
            PreviewView {
                text: preview_name_of(r.glob),
                icon: r.icon,
                colors: gradient(r.colors),
                speed: r.anim_speed,
                easing: r.anim_easing,
                problems: (if glob_compiles(r.glob) { seq![] } else { seq![PreviewProblem::InvalidGlob] })
                    + hex_problems(r.colors),
            }
        },
    }
}

/// The problems found in a colour list.
fn hex_problem_list(list: &str, mut problems: Vec<PreviewProblem>) -> (v: Vec<PreviewProblem>)
    ensures
        v@ == problems@ + hex_problems(list@),
{
    let n = invalid_hex_count(list);
    let ghost start = problems@;
    let mut k: usize = 0;
    while k < n
        invariant
            k <= n,
            problems@ == start + Seq::new(k as nat, |_i: int| PreviewProblem::InvalidHex),
        decreases n - k,
    {
        problems.push(PreviewProblem::InvalidHex);
        assert(Seq::new((k + 1) as nat, |_i: int| PreviewProblem::InvalidHex) =~= Seq::new(
            k as nat,
            |_i: int| PreviewProblem::InvalidHex,
        ).push(PreviewProblem::InvalidHex));
        k = k + 1;
    }
    assert(problems@ =~= start + hex_problems(list@));
    problems
}

/// The preview of a section or rule: its sample name and icon, the colour
/// list it is drawn with, and its speed and easing.
fn preview_with(
    text: String,
    icon: String,
    list: &String,
    speed: u32,
    easing: &Easing,
    problems: Vec<PreviewProblem>,
) -> (p: Option<Preview>)
    ensures
        p is Some <==> gradient_cuts_ok(list@),
        p matches Some(p) ==> p@ == (PreviewView {
            text: text@,
            icon: icon@,
            colors: gradient(list@),
            speed,
            easing: easing@,
            problems: problems@ + hex_problems(list@),
        }),
{
    if !gradient_cuts_hold(list.as_str()) {
        return None;
    }
    let colors = parse_gradient(list.as_str());
    let problems = hex_problem_list(list.as_str(), problems);
    Some(Preview { text, icon, colors, speed, easing: easing.duplicate(), problems })
}

/// What the preview panel shows for field `m` of the theme being edited;
/// `None` when the colour list it reads would be cut inside a character.
pub fn try_preview(theme: &Theme, m: FieldMapping) -> (p: Option<Preview>)
    requires
        rule_index(m) matches Some(i) ==> i < theme.rules@.len(),
    ensures
        p is Some <==> (previewed_list(theme@, m) matches Some(l) ==> gradient_cuts_ok(l)),
        p matches Some(p) ==> p@ == preview_of(theme@, m),
{
    let ghost t = theme@;
    match m {
        FieldMapping::Name => {
            let mut text = string_of("Editing Theme: ");
            push_str(&mut text, theme.name.as_str());
            let mut colors = Vec::new();
            colors.push(ThemeColor::White);
            let p = Preview {
                text,
                icon: string_of("\u{1f3f7}\u{fe0f} "),
                colors,
                speed: SPEED_ONE_BITS,
                easing: Easing::linear(),
                problems: Vec::new(),
            };
            assert(p@ =~= preview_of(t, m));
            Some(p)
        },
        FieldMapping::BranchColors | FieldMapping::BranchSpeed | FieldMapping::BranchEasing => {
            let p = preview_with(
                string_of("├── └── │   (Branch formatting preview)"),
                String::new(),
                &theme.branch_colors,
                theme.branch_speed,
                &theme.branch_easing,
                Vec::new(),
            );
            proof {
                if p is Some {
                    assert(p->0@ =~= preview_of(t, m));
                }
            }
            p
        },
        FieldMapping::DirColors | FieldMapping::DirIcon | FieldMapping::DirSpeed | FieldMapping::DirEasing => {
            let p = preview_with(
                string_of("example_folder"),
                copy_string(&theme.dir_icon),
                &theme.dir_colors,
                theme.dir_speed,
                &theme.dir_easing,
                Vec::new(),
            );
            proof {
                if p is Some {
                    assert(p->0@ =~= preview_of(t, m));
                }
            }
            p
        },
        FieldMapping::FileColors | FieldMapping::FileIcon | FieldMapping::FileSpeed | FieldMapping::FileEasing => {
            let p = preview_with(
                string_of("example_file.txt"),
                copy_string(&theme.file_icon),
                &theme.file_colors,
                theme.file_speed,
                &theme.file_easing,
                Vec::new(),
            );
            proof {
                if p is Some {
                    assert(p->0@ =~= preview_of(t, m));
                }
            }
            p
        },
        FieldMapping::RuleGlob(i) | FieldMapping::RuleTarget(i) | FieldMapping::RuleColors(i)
        | FieldMapping::RuleIcon(i) | FieldMapping::RuleSpeed(i) | FieldMapping::RuleEasing(i) => {
            let rule = &theme.rules[i];
            assert(t.rules[i as int] == rule@);
            let mut problems: Vec<PreviewProblem> = Vec::new();
            if !glob_is_valid(rule.glob.as_str()) {
                problems.push(PreviewProblem::InvalidGlob);
            }
            let p = preview_with(
                preview_name(rule.glob.as_str()),
                copy_string(&rule.icon),
                &rule.colors,
                rule.anim_speed,
                &rule.anim_easing,
                problems,
            );
            proof {
                if p is Some {
                    assert(p->0@ =~= preview_of(t, m));
                }
            }
            p
        },
    }
}

} // verus!
