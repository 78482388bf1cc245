use vstd::prelude::*;

use crate::color::{ThemeColor, gradient, gradient_cuts_ok, gradient_cuts_hold, parse_gradient};
use crate::text::{all_ascii, ascii_lowered, chars_of, copy_string, same_chars, string_of};
use crate::tree::SPEED_ONE_BITS;

verus! {

/// The order in which the entries of one directory are listed.
#[derive(Clone, Copy, Debug, PartialEq, Eq, Structural)]
pub enum SortMode {
    Name,
    Extension,
    Size,
    Modified,
}

impl SortMode {
    pub open spec fn spec_label(self) -> Seq<char> {
        match self {
            SortMode::Name => "name"@,
            SortMode::Extension => "extension"@,
            SortMode::Size => "size"@,
            SortMode::Modified => "modified"@,
        }
    }

    /// The lower-case name under which the mode is shown and chosen.
    pub fn label(&self) -> (s: String)
        ensures
            s@ == self.spec_label(),
    {
        match self {
            SortMode::Name => string_of("name"),
            SortMode::Extension => string_of("extension"),
            SortMode::Size => string_of("size"),
            SortMode::Modified => string_of("modified"),
        }
    }
}

/// Which kind of entry a theme rule applies to.
#[derive(Clone, Copy, Debug, PartialEq, Eq, Structural)]
pub enum Target {
    Any,
    File,
    Dir,
}

impl Target {
    pub open spec fn spec_label(self) -> Seq<char> {
        match self {
            Target::Any => "Any"@,
            Target::File => "File"@,
            Target::Dir => "Dir"@,
        }
    }

    /// The name under which the target is shown and saved.
    pub fn label(&self) -> (s: String)
        ensures
            s@ == self.spec_label(),
    {
        match self {
            Target::Any => string_of("Any"),
            Target::File => string_of("File"),
            Target::Dir => string_of("Dir"),
        }
    }

    /// Whether a rule with this target may style an entry that is (or is
    /// not) a directory.
    pub open spec fn spec_accepts(self, is_dir: bool) -> bool {
        match self {
            Target::File => !is_dir,
            Target::Dir => is_dir,
            Target::Any => true,
        }
    }

    pub fn accepts(&self, is_dir: bool) -> (b: bool)
        ensures
            b == self.spec_accepts(is_dir),
    {
        match self {
            Target::File => !is_dir,
            Target::Dir => is_dir,
            Target::Any => true,
        }
    }
}

/// The animation curve of a colour gradient: a named preset, or a custom
/// exponent held as the bit pattern of its `f32` value.
#[derive(Debug, PartialEq, Eq)]
pub enum Easing {
    Preset(String),
    Custom(u32),
}

/// The mathematical value of an [`Easing`].
pub enum EasingView {
    Preset(Seq<char>),
    Custom(u32),
}

impl View for Easing {
    type V = EasingView;

    open spec fn view(&self) -> EasingView {
        match self {
            Easing::Preset(p) => EasingView::Preset(p@),
            Easing::Custom(bits) => EasingView::Custom(*bits),
        }
    }
}

impl Easing {
    /// The linear preset, the curve of anything a theme does not style.
    pub fn linear() -> (e: Easing)
        ensures
            e@ == EasingView::Preset("linear"@),
    {
        Easing::Preset(string_of("linear"))
    }

    /// A second easing with the same value.
    pub fn duplicate(&self) -> (e: Easing)
        ensures
            e@ == self@,
    {
        match self {
            Easing::Preset(p) => Easing::Preset(copy_string(p)),
            Easing::Custom(bits) => Easing::Custom(*bits),
        }
    }
}

impl Default for Easing {
    /// The linear preset.
    fn default() -> (e: Easing)
        ensures
            e@ == EasingView::Preset("linear"@),
    {
        Easing::linear()
    }
}

/// Whether `glob::Pattern::new` accepts the pattern text.
pub uninterp spec fn glob_compiles(glob: Seq<char>) -> bool;

/// What `glob::Pattern::matches` answers for `name` on the pattern that
/// `glob::Pattern::new` compiles from `glob`: a function of the two texts.
pub uninterp spec fn glob_matches(glob: Seq<char>, name: Seq<char>) -> bool;

/// Asks `glob::Pattern::new` whether it accepts a glob; the answer depends
/// on the text alone.
#[verifier::external_body]
fn compiles(glob: &str) -> (b: bool)
    ensures
        b == glob_compiles(glob@),
{
    glob::Pattern::new(glob).is_ok()
}

/// Compiles a glob with `glob::Pattern::new` and asks `Pattern::matches`
/// whether `name` matches it; a glob that does not compile matches nothing.
#[verifier::external_body]
pub(crate) fn glob_match(glob: &str, name: &str) -> (b: bool)
    ensures
        b == (glob_compiles(glob@) && glob_matches(glob@, name@)),
{
    match glob::Pattern::new(glob) {
        Ok(p) => p.matches(name),
        Err(_) => false,
    }
}

/// An overriding rule of a theme as written: a glob over entry names, the
/// kind of entry it applies to, a colour list, an icon and an animation.
/// Speeds are held as the bit patterns of their `f32` values.
pub struct ThemeRule {
    pub glob: String,
    pub target: Target,
    pub colors: String,
    pub icon: String,
    pub anim_speed: u32,
    pub anim_easing: Easing,
}

/// The mathematical value of a [`ThemeRule`].
pub struct ThemeRuleView {
    pub glob: Seq<char>,
    pub target: Target,
    pub colors: Seq<char>,
    pub icon: Seq<char>,
    pub anim_speed: u32,
    pub anim_easing: EasingView,
}

impl View for ThemeRule {
    type V = ThemeRuleView;

    open spec fn view(&self) -> ThemeRuleView {
        ThemeRuleView {
            glob: self.glob@,
            target: self.target,
            colors: self.colors@,
            icon: self.icon@,
            anim_speed: self.anim_speed,
            anim_easing: self.anim_easing@,
        }
    }
}

impl Default for ThemeRule {
    /// The rule a new rule starts from: every entry, in white, with the page
    /// icon, at speed 1.0 along the linear curve.
    fn default() -> (r: ThemeRule)
        ensures
            r.glob@ == "*"@,
            r.target == Target::Any,
            r.colors@ == "#FFFFFF"@,
            r.icon@ == "📄"@,
            r.anim_speed == SPEED_ONE_BITS,
            r.anim_easing@ == EasingView::Preset("linear"@),
    {
        ThemeRule {
            glob: string_of("*"),
            target: Target::Any,
            colors: string_of("#FFFFFF"),
            icon: string_of("📄"),
            anim_speed: SPEED_ONE_BITS,
            anim_easing: Easing::linear(),
        }
    }
}

impl ThemeRule {
    /// The rule the editor adds on request: `*.new` entries of any kind, a
    /// white-to-grey gradient, the page icon, speed 1.0 on the sine curve.
    pub fn added() -> (r: ThemeRule)
        ensures
            r.glob@ == "*.new"@,
            r.target == Target::Any,
            r.colors@ == "#FFFFFF, #888888"@,
            r.icon@ == "📄 "@,
            r.anim_speed == SPEED_ONE_BITS,
            r.anim_easing@ == EasingView::Preset("sine"@),
    {
        ThemeRule {
            glob: string_of("*.new"),
            target: Target::Any,
            colors: string_of("#FFFFFF, #888888"),
            icon: string_of("📄 "),
            anim_speed: SPEED_ONE_BITS,
            anim_easing: Easing::Preset(string_of("sine")),
        }
    }
}

/// A theme as written: the styles of branches, directories and files, and
/// the overriding rules in order of priority.
pub struct Theme {
    pub name: String,
    pub branch_colors: String,
    pub branch_speed: u32,
    pub branch_easing: Easing,
    pub dir_colors: String,
    pub dir_icon: String,
    pub dir_speed: u32,
    pub dir_easing: Easing,
    pub file_colors: String,
    pub file_icon: String,
    pub file_speed: u32,
    pub file_easing: Easing,
    pub rules: Vec<ThemeRule>,
}

/// The mathematical value of a [`Theme`].
pub struct ThemeView {
    pub name: Seq<char>,
    pub branch_colors: Seq<char>,
    pub branch_speed: u32,
    pub branch_easing: EasingView,
    pub dir_colors: Seq<char>,
    pub dir_icon: Seq<char>,
    pub dir_speed: u32,
    pub dir_easing: EasingView,
    pub file_colors: Seq<char>,
    pub file_icon: Seq<char>,
    pub file_speed: u32,
    pub file_easing: EasingView,
    pub rules: Seq<ThemeRuleView>,
}

impl View for Theme {
    type V = ThemeView;

    open spec fn view(&self) -> ThemeView {
        ThemeView {
            name: self.name@,
            branch_colors: self.branch_colors@,
            branch_speed: self.branch_speed,
            branch_easing: self.branch_easing@,
            dir_colors: self.dir_colors@,
            dir_icon: self.dir_icon@,
            dir_speed: self.dir_speed,
            dir_easing: self.dir_easing@,
            file_colors: self.file_colors@,
            file_icon: self.file_icon@,
            file_speed: self.file_speed,
            file_easing: self.file_easing@,
            rules: self.rules@.map_values(|r: ThemeRule| r@),
        }
    }
}

/// A rule ready to be applied: its glob (one that compiles) and its
/// colours read.
pub struct RuntimeRule {
    pub glob: String,
    pub target: Target,
    pub colors: Vec<ThemeColor>,
    pub icon: String,
    pub anim_speed: u32,
    pub anim_easing: Easing,
}

/// A theme ready to be applied.
pub struct RuntimeTheme {
    pub branch_colors: Vec<ThemeColor>,
    pub branch_speed: u32,
    pub branch_easing: Easing,
    pub dir_colors: Vec<ThemeColor>,
    pub dir_icon: String,
    pub dir_speed: u32,
    pub dir_easing: Easing,
    pub file_colors: Vec<ThemeColor>,
    pub file_icon: String,
    pub file_speed: u32,
    pub file_easing: Easing,
    pub rules: Vec<RuntimeRule>,
}

/// The positions, among the first `n` rules, of those whose glob compiles.
pub open spec fn compiled_upto(rules: Seq<ThemeRule>, n: int) -> Seq<int>
    decreases n,
{
    if n <= 0 {
        seq![]
    } else {
        let r = compiled_upto(rules, n - 1);
        if glob_compiles(rules[n - 1].glob@) {
            r.push(n - 1)
        } else {
            r
        }
    }
}

pub open spec fn compiled_rules(rules: Seq<ThemeRule>) -> Seq<int> {
    compiled_upto(rules, rules.len() as int)
}

/// `rt` is the runtime form of `r`: same glob, target, icon and animation,
/// its colour list read as a gradient.
pub open spec fn runtime_rule_of(rt: RuntimeRule, r: ThemeRule) -> bool {
    &&& rt.glob@ == r.glob@
    &&& rt.target == r.target
    &&& rt.colors@ == gradient(r.colors@)
    &&& rt.icon@ == r.icon@
    &&& rt.anim_speed == r.anim_speed
    &&& rt.anim_easing@ == r.anim_easing@
}

impl Theme {
    /// Every colour list that `to_runtime` reads can be read without cutting
    /// a character.
    pub open spec fn colors_readable(&self) -> bool {
        &&& gradient_cuts_ok(self.branch_colors@)
        &&& gradient_cuts_ok(self.dir_colors@)
        &&& gradient_cuts_ok(self.file_colors@)
        &&& forall|i: int|
            0 <= i < self.rules@.len() && glob_compiles(#[trigger] self.rules@[i].glob@)
                ==> gradient_cuts_ok(self.rules@[i].colors@)
    }

    /// Whether `to_runtime` can read every colour list of the theme.
    pub fn colors_hold(&self) -> (b: bool)
        ensures
            b == self.colors_readable(),
    {
        if !gradient_cuts_hold(self.branch_colors.as_str()) || !gradient_cuts_hold(
            self.dir_colors.as_str(),
        ) || !gradient_cuts_hold(self.file_colors.as_str()) {
            return false;
        }
        let mut i: usize = 0;
        while i < self.rules.len()
            invariant
                i <= self.rules@.len(),
                forall|j: int|
                    0 <= j < i && glob_compiles(#[trigger] self.rules@[j].glob@) ==> gradient_cuts_ok(
                        self.rules@[j].colors@,
                    ),
            decreases self.rules@.len() - i,
        {
            let r = &self.rules[i];
            if compiles(r.glob.as_str()) && !gradient_cuts_hold(r.colors.as_str()) {
                return false;
            }
            i = i + 1;
        }
        true
    }

    /// `rt` is this theme made ready: every colour list read as a gradient,
    /// speeds, easings and icons kept, and the rules whose glob compiles
    /// kept in order, each in its runtime form.
    pub open spec fn runtime_form(&self, rt: RuntimeTheme) -> bool {
        &&& rt.branch_colors@ == gradient(self.branch_colors@)
        &&& rt.branch_speed == self.branch_speed
        &&& rt.branch_easing@ == self.branch_easing@
        &&& rt.dir_colors@ == gradient(self.dir_colors@)
        &&& rt.dir_icon@ == self.dir_icon@
        &&& rt.dir_speed == self.dir_speed
        &&& rt.dir_easing@ == self.dir_easing@
        &&& rt.file_colors@ == gradient(self.file_colors@)
        &&& rt.file_icon@ == self.file_icon@
        &&& rt.file_speed == self.file_speed
        &&& rt.file_easing@ == self.file_easing@
        &&& rt.rules@.len() == compiled_rules(self.rules@).len()
        &&& forall|k: int|
            0 <= k < rt.rules@.len() ==> runtime_rule_of(
                #[trigger] rt.rules@[k],
                self.rules@[compiled_rules(self.rules@)[k]],
            )
    }

    /// Reads every colour list and compiles every glob; rules whose glob
    /// does not compile are dropped, the others keep their order.
    pub fn to_runtime(&self) -> (rt: RuntimeTheme)
        requires
            self.colors_readable(),
        ensures
            self.runtime_form(rt),
    {
        let mut rules: Vec<RuntimeRule> = Vec::new();
        let mut i: usize = 0;
        while i < self.rules.len()
            invariant
                i <= self.rules@.len(),
                self.colors_readable(),
                rules@.len() == compiled_upto(self.rules@, i as int).len(),
                forall|k: int|
                    0 <= k < rules@.len() ==> runtime_rule_of(
                        #[trigger] rules@[k],
                        self.rules@[compiled_upto(self.rules@, i as int)[k]],
                    ),
            decreases self.rules@.len() - i,
        {
            let r = &self.rules[i];
            if compiles(r.glob.as_str()) {
                    let rt = RuntimeRule {
                        glob: copy_string(&r.glob),
                        target: r.target,
                        colors: parse_gradient(r.colors.as_str()),
                        icon: copy_string(&r.icon),
                        anim_speed: r.anim_speed,
                        anim_easing: r.anim_easing.duplicate(),
                    };
                rules.push(rt);
            }
            i = i + 1;
        }
        RuntimeTheme {
            branch_colors: parse_gradient(self.branch_colors.as_str()),
            branch_speed: self.branch_speed,
            branch_easing: self.branch_easing.duplicate(),
            dir_colors: parse_gradient(self.dir_colors.as_str()),
            dir_icon: copy_string(&self.dir_icon),
            dir_speed: self.dir_speed,
            dir_easing: self.dir_easing.duplicate(),
            file_colors: parse_gradient(self.file_colors.as_str()),
            file_icon: copy_string(&self.file_icon),
            file_speed: self.file_speed,
            file_easing: self.file_easing.duplicate(),
            rules,
        }
    }
}

/// What `str::to_lowercase` gives for a string: its Unicode lower-case
/// mapping, a function of the string alone.
pub uninterp spec fn lowercase(s: Seq<char>) -> Seq<char>;

/// Lower-cases a string with `str::to_lowercase`. Of ASCII text, the
/// Unicode lower-case mapping it follows changes only `A`..`Z`, into
/// `a`..`z`; of other text nothing more is stated.
#[verifier::external_body]
fn to_lowercase(s: &str) -> (r: String)
    ensures
        r@ == lowercase(s@),
        all_ascii(s@) ==> ascii_lowered(r@, s@),
{
    s.to_lowercase()
}

/// The target a lower-cased name stands for: `file`, `dir` or `folder`;
/// anything else means any entry.
pub open spec fn target_named(lower: Seq<char>) -> Target {
    if lower == "file"@ {
        Target::File
    } else if lower == "dir"@ || lower == "folder"@ {
        Target::Dir
    } else {
        Target::Any
    }
}

impl Target {
    /// The target named by an already lower-cased name.
    pub fn from_lowercase(lower: &str) -> (t: Target)
        ensures
            t == target_named(lower@),
    {
        let cs = chars_of(lower);
        if same_chars(&cs, &chars_of("file")) {
            Target::File
        } else if same_chars(&cs, &chars_of("dir")) || same_chars(&cs, &chars_of("folder")) {
            Target::Dir
        } else {
            Target::Any
        }
    }

    /// Reads a target name, ignoring case.
    pub fn from_str(s: &str) -> (t: Target)
        ensures
            t == target_named(lowercase(s@)),
            all_ascii(s@) ==> ascii_lowered(lowercase(s@), s@),
    {
        let lower = to_lowercase(s);
        Target::from_lowercase(lower.as_str())
    }
}

/// A target's label reads back as that target: the label is ASCII, and its
/// lower-cased form names the target.
pub proof fn law_label_reads_back(t: Target, lower: Seq<char>)
    requires
        ascii_lowered(lower, t.spec_label()),
    ensures
        all_ascii(t.spec_label()),
        target_named(lower) == t,
{
    reveal_strlit("Any");
    reveal_strlit("File");
    reveal_strlit("Dir");
    reveal_strlit("any");
    reveal_strlit("file");
    reveal_strlit("dir");
    reveal_strlit("folder");
    let l = t.spec_label();
    assert forall|i: int| 0 <= i < l.len() implies (#[trigger] l[i] as int) < 128 by {}
    match t {
        Target::File => {
            assert(lower[0] == 'f' && lower[1] == 'i' && lower[2] == 'l' && lower[3] == 'e');
            assert(lower =~= "file"@);
        },
        Target::Dir => {
            assert(lower[0] == 'd' && lower[1] == 'i' && lower[2] == 'r');
            assert(lower =~= "dir"@);
        },
        Target::Any => {
            assert(lower[0] == 'a' && lower[1] == 'n' && lower[2] == 'y');
            assert(lower != "file"@ && lower != "dir"@ && lower != "folder"@);
        },
    }
}

impl Theme {
    /// The runtime form of the theme, when every colour list it reads can
    /// be read; `None` when one would cut a character.
    pub fn try_to_runtime(&self) -> (rt: Option<RuntimeTheme>)
        ensures
            rt is Some <==> self.colors_readable(),
            rt matches Some(r) ==> self.runtime_form(r),
    {
        if self.colors_hold() {
            Some(self.to_runtime())
        } else {
            None
        }
    }
}

/// Whether a glob compiles, as the editor's preview checks.
pub fn glob_is_valid(glob: &str) -> (b: bool)
    ensures
        b == glob_compiles(glob@),
{
    compiles(glob)
}

/// The name shown in a rule's preview: the glob with every `*` replaced by
/// `example`.
pub open spec fn preview_name_of(glob: Seq<char>) -> Seq<char>
    decreases glob.len(),
{
    if glob.len() == 0 {
        seq![]
    } else {
        preview_name_of(glob.drop_last()) + if glob.last() == '*' {
            "example"@
        } else {
            seq![glob.last()]
        }
    }
}

/// The example name a rule's preview shows for its glob.
pub fn preview_name(glob: &str) -> (s: String)
    ensures
        s@ == preview_name_of(glob@),
{
    let cs = chars_of(glob);
    let mut s = String::new();
    let mut k: usize = 0;
    while k < cs.len()
        invariant
            k <= cs@.len(),
            cs@ == glob@,
            s@ == preview_name_of(cs@.take(k as int)),
        decreases cs@.len() - k,
    {
        proof {
            assert(cs@.take(k + 1).drop_last() == cs@.take(k as int));
            assert(cs@.take(k + 1).last() == cs@[k as int]);
        }
        if cs[k] == '*' {
            crate::text::push_str(&mut s, "example");
        } else {
            crate::text::push_char(&mut s, cs[k]);
        }
        k = k + 1;
    }
    assert(cs@.take(cs@.len() as int) == cs@);
    s
}

} // verus!
