use vstd::prelude::*;

use crate::text::string_of;
use crate::theme::{Easing, EasingView, Target, Theme, ThemeRule, ThemeRuleView, ThemeView};
use crate::tree::SPEED_ONE_BITS;

verus! {

// The built-in theme, Catppuccin Macchiato. Speeds are the bit patterns of
// their `f32` values: 0.2 is 0x3E4CCCCD, 0.4 is 0x3ECCCCCD, 0.5 is
// 0x3F000000, 0.8 is 0x3F4CCCCD, 1.2 is 0x3F99999A, 1.5 is 0x3FC00000.

/// A rule of the built-in theme, its easing a named preset.
pub open spec fn rule_of(
    glob: Seq<char>,
    target: Target,
    colors: Seq<char>,
    icon: Seq<char>,
    speed: u32,
    easing: Seq<char>,
) -> ThemeRuleView {
    ThemeRuleView { glob, target, colors, icon, anim_speed: speed, anim_easing: EasingView::Preset(easing) }
}

/// The overriding rules of the built-in theme, in order of priority.
pub open spec fn builtin_rules() -> Seq<ThemeRuleView> {
    seq![
        rule_of(".git"@, Target::Dir, "#F5A97F"@, " "@, 0, "linear"@),
        rule_of("node_modules"@, Target::Dir, "#ED8796"@, " "@, 0, "linear"@),
        rule_of("target"@, Target::Dir, "#5B6078"@, "󰚳 "@, 0, "linear"@),
        rule_of(".github"@, Target::Dir, "#B7BDF8"@, " "@, 0x3F000000, "sine"@),
        rule_of("*.rs"@, Target::File, "#EED49F, #F5A97F"@, "🦀"@, 0x3FC00000, "sine"@),
        rule_of("*.js"@, Target::File, "#EED49F"@, "󰚵 "@, SPEED_ONE_BITS, "pingpong"@),
        rule_of("*.ts"@, Target::File, "#8AADF4"@, "󰛦 "@, SPEED_ONE_BITS, "linear"@),
        rule_of("*.py"@, Target::File, "#8AADF4, #EED49F"@, " "@, 0x3F4CCCCD, "sine"@),
        rule_of("*.go"@, Target::File, "#7DC4E4"@, " "@, 0x3F99999A, "linear"@),
        rule_of("*.toml"@, Target::File, "#F5A97F"@, " "@, 0, "linear"@),
        rule_of("*.json"@, Target::File, "#EED49F"@, " "@, 0, "linear"@),
        rule_of("*.yaml"@, Target::File, "#A6DA95"@, " "@, 0, "linear"@),
        rule_of("*.yml"@, Target::File, "#A6DA95"@, " "@, 0, "linear"@),
        rule_of("*.md"@, Target::File, "#C6A0F6"@, "󰍔 "@, 0x3F000000, "pingpong"@),
        rule_of("Dockerfile"@, Target::File, "#8AADF4, #7DC4E4"@, "󰡨 "@, SPEED_ONE_BITS, "sine"@),
        rule_of("docker-compose.yml"@, Target::File, "#8AADF4"@, "󰡨 "@, 0, "linear"@),
        rule_of("uv.lock"@, Target::File, "#CBA6F7"@, "🔒"@, 0, "linear"@),
        rule_of("bun.lockb"@, Target::File, "#F5E0DC"@, "🥟"@, 0, "linear"@),
        rule_of("Cargo.lock"@, Target::File, "#6E738D"@, " "@, 0, "linear"@),
        rule_of("package-lock.json"@, Target::File, "#6E738D"@, " "@, 0, "linear"@),
        rule_of(".gitignore"@, Target::File, "#ED8796"@, " "@, 0, "linear"@),
    ]
}

/// The built-in theme.
pub open spec fn builtin_theme() -> ThemeView {
    ThemeView {
        name: "Catppuccin Macchiato"@,
        branch_colors: "#494D64, #5B6078"@,
        branch_speed: 0x3E4CCCCD,
        branch_easing: EasingView::Preset("linear"@),
        dir_colors: "#8AADF4, #7DC4E4"@,
        dir_icon: "󰉋 "@,
        dir_speed: 0x3ECCCCCD,
        dir_easing: EasingView::Preset("sine"@),
        file_colors: "#CAD3F5"@,
        file_icon: "󰈔 "@,
        file_speed: 0,
        file_easing: EasingView::Preset("linear"@),
        rules: builtin_rules(),
    }
}

fn make_rule(glob: &str, target: Target, colors: &str, icon: &str, speed: u32, easing: &str) -> (r: ThemeRule)
    ensures
        r@ == rule_of(glob@, target, colors@, icon@, speed, easing@),
{
    ThemeRule {
        glob: string_of(glob),
        target,
        colors: string_of(colors),
        icon: string_of(icon),
        anim_speed: speed,
        anim_easing: Easing::Preset(string_of(easing)),
    }
}

fn builtin_rule_list() -> (rules: Vec<ThemeRule>)
    ensures
        rules@.map_values(|r: ThemeRule| r@) == builtin_rules(),
{
    let mut rules: Vec<ThemeRule> = Vec::new();
    rules.push(make_rule(".git", Target::Dir, "#F5A97F", " ", 0, "linear"));
    rules.push(make_rule("node_modules", Target::Dir, "#ED8796", " ", 0, "linear"));
    rules.push(make_rule("target", Target::Dir, "#5B6078", "󰚳 ", 0, "linear"));
    rules.push(make_rule(".github", Target::Dir, "#B7BDF8", " ", 0x3F000000, "sine"));
    rules.push(make_rule("*.rs", Target::File, "#EED49F, #F5A97F", "🦀", 0x3FC00000, "sine"));
    rules.push(make_rule("*.js", Target::File, "#EED49F", "󰚵 ", SPEED_ONE_BITS, "pingpong"));
    rules.push(make_rule("*.ts", Target::File, "#8AADF4", "󰛦 ", SPEED_ONE_BITS, "linear"));
    rules.push(make_rule("*.py", Target::File, "#8AADF4, #EED49F", " ", 0x3F4CCCCD, "sine"));
    rules.push(make_rule("*.go", Target::File, "#7DC4E4", " ", 0x3F99999A, "linear"));
    rules.push(make_rule("*.toml", Target::File, "#F5A97F", " ", 0, "linear"));
    rules.push(make_rule("*.json", Target::File, "#EED49F", " ", 0, "linear"));
    rules.push(make_rule("*.yaml", Target::File, "#A6DA95", " ", 0, "linear"));
    rules.push(make_rule("*.yml", Target::File, "#A6DA95", " ", 0, "linear"));
    rules.push(make_rule("*.md", Target::File, "#C6A0F6", "󰍔 ", 0x3F000000, "pingpong"));
    rules.push(make_rule("Dockerfile", Target::File, "#8AADF4, #7DC4E4", "󰡨 ", SPEED_ONE_BITS, "sine"));
    rules.push(make_rule("docker-compose.yml", Target::File, "#8AADF4", "󰡨 ", 0, "linear"));
    rules.push(make_rule("uv.lock", Target::File, "#CBA6F7", "🔒", 0, "linear"));
    rules.push(make_rule("bun.lockb", Target::File, "#F5E0DC", "🥟", 0, "linear"));
    rules.push(make_rule("Cargo.lock", Target::File, "#6E738D", " ", 0, "linear"));
    rules.push(make_rule("package-lock.json", Target::File, "#6E738D", " ", 0, "linear"));
    rules.push(make_rule(".gitignore", Target::File, "#ED8796", " ", 0, "linear"));
    assert(rules@.map_values(|r: ThemeRule| r@) =~= builtin_rules());
    rules
}

impl Default for Theme {
    /// The built-in theme, Catppuccin Macchiato.
    fn default() -> (t: Theme)
        ensures
            t@ == builtin_theme(),
    {
        Theme {
            name: string_of("Catppuccin Macchiato"),
            branch_colors: string_of("#494D64, #5B6078"),
            branch_speed: 0x3E4CCCCD,
            branch_easing: Easing::Preset(string_of("linear")),
            dir_colors: string_of("#8AADF4, #7DC4E4"),
            dir_icon: string_of("󰉋 "),
            dir_speed: 0x3ECCCCCD,
            dir_easing: Easing::Preset(string_of("sine")),
            file_colors: string_of("#CAD3F5"),
            file_icon: string_of("󰈔 "),
            file_speed: 0,
            file_easing: Easing::Preset(string_of("linear")),
            rules: builtin_rule_list(),
        }
    }
}

} // verus!
