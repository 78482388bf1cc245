use vstd::prelude::*;

use crate::color::ThemeColor;
use crate::text::{decimal, push_decimal, push_str, string_of, copy_string};
use crate::theme::{Easing, EasingView, RuntimeTheme, Target, glob_compiles, glob_match, glob_matches};
use crate::text::{chars_of, push_char};

verus! {

/// Deepest level the tree layout keeps a "last child" flag for; items may
/// sit at this depth, none deeper.
pub const MAX_DEPTH: usize = 512;

/// The bit pattern of the `f32` speed 1.0, the speed of unstyled items.
pub const SPEED_ONE_BITS: u32 = 0x3F80_0000;

/// One entry of a directory walk, in walk order: its file name, whether it
/// is a directory, how deep below the root it lies, and the position in the
/// walk of the directory that holds it (none for the root).
pub struct WalkEntry {
    pub name: String,
    pub is_dir: bool,
    pub depth: usize,
    pub parent: Option<usize>,
}

/// One line of the rendered tree, with the style it is drawn in.
pub struct TreeItem {
    pub name: String,
    pub is_dir: bool,
    pub depth: usize,
    pub is_last: bool,
    pub ancestor_is_last: Vec<bool>,
    pub cached_colors: Vec<ThemeColor>,
    pub cached_icon: String,
    pub cached_speed: u32,
    pub cached_easing: Easing,
}

/// The mathematical value of a [`TreeItem`].
#[verifier::ext_equal]
pub struct TreeItemView {
    pub name: Seq<char>,
    pub is_dir: bool,
    pub depth: nat,
    pub is_last: bool,
    pub ancestor_is_last: Seq<bool>,
    pub cached_colors: Seq<ThemeColor>,
    pub cached_icon: Seq<char>,
    pub cached_speed: u32,
    pub cached_easing: EasingView,
}

impl View for TreeItem {
    type V = TreeItemView;

    open spec fn view(&self) -> TreeItemView {
        TreeItemView {
            name: self.name@,
            is_dir: self.is_dir,
            depth: self.depth as nat,
            is_last: self.is_last,
            ancestor_is_last: self.ancestor_is_last@,
            cached_colors: self.cached_colors@,
            cached_icon: self.cached_icon@,
            cached_speed: self.cached_speed,
            cached_easing: self.cached_easing@,
        }
    }
}

pub open spec fn item_views(items: Seq<TreeItem>) -> Seq<TreeItemView> {
    items.map_values(|t: TreeItem| t@)
}

// ---------------------------------------------------------------------------
// Which entries are shown
// ---------------------------------------------------------------------------

/// A file held directly by directory `p`: these are what the per-directory
/// limit counts (directories are never limited).
pub open spec fn counts_toward(e: WalkEntry, p: usize) -> bool {
    e.depth > 0 && e.parent == Some(p) && !e.is_dir
}

/// How many of the first `i` entries are files held by directory `p`.
pub open spec fn files_before(es: Seq<WalkEntry>, i: int, p: usize) -> nat
    decreases i,
{
    if i <= 0 {
        0
    } else {
        files_before(es, i - 1, p) + if counts_toward(es[i - 1], p) {
            1nat
        } else {
            0nat
        }
    }
}

/// Whether entry `i` is listed: the root, directories, entries without a
/// parent and, when a limit is set, the first `max` files of each directory.
pub open spec fn shown(es: Seq<WalkEntry>, max: Option<usize>, i: int) -> bool {
    let e = es[i];
    ||| e.depth == 0
    ||| e.parent is None
    ||| e.is_dir
    ||| max is None
    ||| files_before(es, i, e.parent->0) < max->0
}

/// How many files of directory `p` the limit leaves out.
pub open spec fn omitted_of(es: Seq<WalkEntry>, max: Option<usize>, p: usize) -> nat {
    match max {
        None => 0,
        Some(m) => {
            let f = files_before(es, es.len() as int, p);
            if f > m {
                (f - m) as nat
            } else {
                0
            }
        },
    }
}

/// The positions of the listed entries among the first `n`, in walk order.
pub open spec fn shown_upto(es: Seq<WalkEntry>, max: Option<usize>, n: int) -> Seq<int>
    decreases n,
{
    if n <= 0 {
        seq![]
    } else {
        let r = shown_upto(es, max, n - 1);
        if shown(es, max, n - 1) {
            r.push(n - 1)
        } else {
            r
        }
    }
}

pub open spec fn shown_indices(es: Seq<WalkEntry>, max: Option<usize>) -> Seq<int> {
    shown_upto(es, max, es.len() as int)
}

// ---------------------------------------------------------------------------
// How the listed entries are laid out
// ---------------------------------------------------------------------------

/// The "is last child" flag of the most recent line at depth `k`, false
/// when there is none: what the branch drawing of deeper lines follows.
pub open spec fn last_flag(out: Seq<TreeItemView>, k: nat) -> bool
    decreases out.len(),
{
    if out.len() == 0 {
        false
    } else if out.last().depth == k {
        out.last().is_last
    } else {
        last_flag(out.drop_last(), k)
    }
}

/// The flags of the levels 1 to `d - 1` above a line at depth `d`.
pub open spec fn ancestor_flags(out: Seq<TreeItemView>, d: nat) -> Seq<bool> {
    Seq::new(if d > 1 { (d - 1) as nat } else { 0 }, |k: int| last_flag(out, (k + 1) as nat))
}

pub open spec fn omitted_name(count: nat) -> Seq<char> {
    "... "@ + decimal(count) + " omitted"@
}

/// The colour of the line that stands for a directory's omitted files.
pub open spec fn muted() -> ThemeColor {
    ThemeColor::Rgb(165, 173, 203)
}

/// The line standing for `count` omitted files, at depth `d`.
pub open spec fn omitted_line(count: nat, d: nat, out: Seq<TreeItemView>) -> TreeItemView {
    TreeItemView {
        name: omitted_name(count),
        is_dir: false,
        depth: d,
        is_last: true,
        ancestor_is_last: ancestor_flags(out, d),
        cached_colors: seq![muted()],
        cached_icon: "⋯ "@,
        cached_speed: 0,
        cached_easing: EasingView::Preset("linear"@),
    }
}

/// The line of a listed entry, not yet styled by a theme.
pub open spec fn entry_line(e: WalkEntry, is_last: bool, out: Seq<TreeItemView>) -> TreeItemView {
    TreeItemView {
        name: e.name@,
        is_dir: e.is_dir,
        depth: e.depth as nat,
        is_last,
        ancestor_is_last: ancestor_flags(out, e.depth as nat),
        cached_colors: seq![ThemeColor::White],
        cached_icon: Seq::empty(),
        cached_speed: SPEED_ONE_BITS,
        cached_easing: EasingView::Preset("linear"@),
    }
}

/// Closes the open directories (`stack`, innermost last) that are at depth
/// `d` or deeper, emitting the omitted-files line of each that has one.
pub open spec fn close_dirs(
    es: Seq<WalkEntry>,
    max: Option<usize>,
    out: Seq<TreeItemView>,
    stack: Seq<int>,
    d: nat,
) -> (Seq<TreeItemView>, Seq<int>)
    decreases stack.len(),
{
    if stack.len() > 0 && es[stack.last()].depth >= d {
        let top = stack.last();
        let c = omitted_of(es, max, top as usize);
        let out2 = if c > 0 {
            out.push(omitted_line(c, (es[top].depth + 1) as nat, out))
        } else {
            out
        };
        close_dirs(es, max, out2, stack.drop_last(), d)
    } else {
        (out, stack)
    }
}

/// Whether, looking from the `j`-th listed entry on, another entry at depth
/// `d` comes before any shallower one.
pub open spec fn sibling_ahead(es: Seq<WalkEntry>, ks: Seq<int>, d: nat, j: int) -> bool
    decreases ks.len() - j,
{
    if j < 0 || j >= ks.len() {
        false
    } else if es[ks[j]].depth < d {
        false
    } else if es[ks[j]].depth == d {
        true
    } else {
        sibling_ahead(es, ks, d, j + 1)
    }
}

/// Whether the `i`-th listed entry is drawn as the last child: no later
/// sibling is listed and its directory has no omitted files (the
/// omitted-files line always comes last).
pub open spec fn entry_is_last(es: Seq<WalkEntry>, max: Option<usize>, ks: Seq<int>, i: int) -> bool {
    let e = es[ks[i]];
    &&& !sibling_ahead(es, ks, e.depth as nat, i + 1)
    &&& !(e.parent matches Some(p) && omitted_of(es, max, p) > 0)
}

/// Lays out the `i`-th listed entry after the lines and open directories
/// `st` of the entries before it.
pub open spec fn layout_step(
    es: Seq<WalkEntry>,
    max: Option<usize>,
    ks: Seq<int>,
    i: int,
    st: (Seq<TreeItemView>, Seq<int>),
) -> (Seq<TreeItemView>, Seq<int>) {
    let e = es[ks[i]];
    let closed = close_dirs(es, max, st.0, st.1, e.depth as nat);
    let line = entry_line(e, entry_is_last(es, max, ks, i), closed.0);
    (closed.0.push(line), if e.is_dir { closed.1.push(ks[i]) } else { closed.1 })
}

pub open spec fn layout_upto(es: Seq<WalkEntry>, max: Option<usize>, ks: Seq<int>, n: int) -> (
    Seq<TreeItemView>,
    Seq<int>,
)
    decreases n,
{
    if n <= 0 {
        (seq![], seq![])
    } else {
        layout_step(es, max, ks, n - 1, layout_upto(es, max, ks, n - 1))
    }
}

/// The lines of the tree: the listed entries in walk order, each directory
/// followed, after its last listed descendant, by a line counting the files
/// it leaves out, if any.
pub open spec fn tree_layout(es: Seq<WalkEntry>, max: Option<usize>) -> Seq<TreeItemView> {
    let ks = shown_indices(es, max);
    let st = layout_upto(es, max, ks, ks.len() as int);
    close_dirs(es, max, st.0, st.1, 0).0
}

/// What the layout needs of a walk so that no line is too deep to draw and
/// every parent position names an entry.
pub open spec fn walk_fits(es: Seq<WalkEntry>, max: Option<usize>) -> bool {
    &&& forall|i: int| 0 <= i < es.len() ==> ((#[trigger] es[i]).parent matches Some(p) ==> p < es.len())
    &&& forall|i: int| 0 <= i < es.len() && shown(es, max, i) ==> (#[trigger] es[i]).depth <= MAX_DEPTH
    &&& forall|i: int|
        0 <= i < es.len() && shown(es, max, i) && es[i].is_dir && omitted_of(es, max, i as usize) > 0
            ==> (#[trigger] es[i]).depth < MAX_DEPTH
}

// ---------------------------------------------------------------------------
// Lemmas
// ---------------------------------------------------------------------------

pub proof fn lemma_files_before_bound(es: Seq<WalkEntry>, i: int, p: usize)
    ensures
        files_before(es, i, p) <= if i > 0 { i } else { 0 },
    decreases i,
{
    if i > 0 {
        lemma_files_before_bound(es, i - 1, p);
    }
}

pub proof fn lemma_files_before_mono(es: Seq<WalkEntry>, i: int, j: int, p: usize)
    requires
        i <= j,
    ensures
        files_before(es, i, p) <= files_before(es, j, p),
    decreases j - i,
{
    if i < j {
        lemma_files_before_mono(es, i, j - 1, p);
    }
}

pub proof fn lemma_shown_upto(es: Seq<WalkEntry>, max: Option<usize>, n: int)
    requires
        0 <= n <= es.len(),
    ensures
        shown_upto(es, max, n).len() <= n,
        forall|k: int|
            0 <= k < shown_upto(es, max, n).len() ==> 0 <= #[trigger] shown_upto(es, max, n)[k] < n
                && shown(es, max, shown_upto(es, max, n)[k]),
        forall|a: int, b: int|
            0 <= a < b < shown_upto(es, max, n).len() ==> shown_upto(es, max, n)[a]
                < shown_upto(es, max, n)[b],
    decreases n,
{
    if n > 0 {
        lemma_shown_upto(es, max, n - 1);
    }
}

pub proof fn lemma_last_flag_push(out: Seq<TreeItemView>, line: TreeItemView, k: nat)
    ensures
        last_flag(out.push(line), k) == if line.depth == k {
            line.is_last
        } else {
            last_flag(out, k)
        },
{
    assert(out.push(line).drop_last() == out);
}

// ---------------------------------------------------------------------------
// Executable layout
// ---------------------------------------------------------------------------

/// The branch flags `flags[1..d]`.
fn ancestors_of(flags: &Vec<bool>, d: usize) -> (v: Vec<bool>)
    requires
        d <= flags.len(),
    ensures
        v@ == Seq::new(if d > 1 { (d - 1) as nat } else { 0 }, |k: int| flags@[k + 1]),
{
    let mut v: Vec<bool> = Vec::new();
    if d > 1 {
        let mut k: usize = 1;
        while k < d
            invariant
                1 <= k <= d <= flags.len(),
                v@ == Seq::new((k - 1) as nat, |j: int| flags@[j + 1]),
            decreases d - k,
        {
            v.push(flags[k]);
            k = k + 1;
        }
    }
    v
}

fn omitted_item(count: usize, depth: usize, flags: &Vec<bool>, Ghost(out): Ghost<Seq<TreeItemView>>) -> (it: TreeItem)
    requires
        depth <= flags.len() == MAX_DEPTH,
        forall|k: int| 1 <= k < MAX_DEPTH ==> #[trigger] flags@[k] == last_flag(out, k as nat),
    ensures
        it@ == omitted_line(count as nat, depth as nat, out),
{
    let mut name = string_of("... ");
    push_decimal(&mut name, count);
    push_str(&mut name, " omitted");
    let mut colors = Vec::new();
    colors.push(ThemeColor::Rgb(165, 173, 203));
    let anc = ancestors_of(flags, depth);
    let it = TreeItem {
        name,
        is_dir: false,
        depth,
        is_last: true,
        ancestor_is_last: anc,
        cached_colors: colors,
        cached_icon: string_of("⋯ "),
        cached_speed: 0,
        cached_easing: Easing::linear(),
    };
    assert(it@.ancestor_is_last == ancestor_flags(out, depth as nat));
    assert(it@.cached_colors == seq![muted()]);
    it
}

pub open spec fn int_seq(v: Seq<usize>) -> Seq<int> {
    v.map_values(|x: usize| x as int)
}

/// Decides, in one pass over the walk, which entries are listed and how
/// many files each directory leaves out.
fn select_entries(entries: &Vec<WalkEntry>, max_entries: Option<usize>) -> (r: (
    Vec<usize>,
    Vec<usize>,
))
    requires
        forall|i: int|
            0 <= i < entries@.len() ==> ((#[trigger] entries@[i]).parent matches Some(p) ==> p
                < entries@.len()),
    ensures
        int_seq(r.0@) == shown_indices(entries@, max_entries),
        r.1@.len() == entries@.len(),
        forall|p: int|
            0 <= p < entries@.len() ==> #[trigger] r.1@[p] == omitted_of(
                entries@,
                max_entries,
                p as usize,
            ),
{
    let ghost es = entries@;
    let n = entries.len();
    let mut counts: Vec<usize> = Vec::new();
    let mut omitted: Vec<usize> = Vec::new();
    let mut z: usize = 0;
    while z < n
        invariant
            z <= n,
            counts@.len() == z,
            omitted@.len() == z,
            forall|q: int| 0 <= q < z ==> #[trigger] counts@[q] == 0,
            forall|q: int| 0 <= q < z ==> #[trigger] omitted@[q] == 0,
        decreases n - z,
    {
        counts.push(0);
        omitted.push(0);
        z = z + 1;
    }
    let mut kept: Vec<usize> = Vec::new();
    let mut i: usize = 0;
    while i < n
        invariant
            i <= n == es.len(),
            es == entries@,
            forall|j: int|
                0 <= j < es.len() ==> ((#[trigger] es[j]).parent matches Some(p) ==> p < es.len()),
            counts@.len() == n,
            omitted@.len() == n,
            int_seq(kept@) == shown_upto(es, max_entries, i as int),
            forall|q: int|
                0 <= q < n ==> #[trigger] counts@[q] == match max_entries {
                    Some(m) => if files_before(es, i as int, q as usize) < m {
                        files_before(es, i as int, q as usize)
                    } else {
                        m as nat
                    },
                    None => 0,
                },
            forall|q: int|
                0 <= q < n ==> #[trigger] omitted@[q] == match max_entries {
                    Some(m) => if files_before(es, i as int, q as usize) > m {
                        (files_before(es, i as int, q as usize) - m) as nat
                    } else {
                        0
                    },
                    None => 0,
                },
        decreases n - i,
    {
        let e = &entries[i];
        proof {
            assert forall|q: int| 0 <= q < n implies #[trigger] files_before(es, i + 1, q as usize)
                == files_before(es, i as int, q as usize) + if counts_toward(es[i as int], q as usize) {
                1nat
            } else {
                0nat
            } by {}
            lemma_files_before_bound(es, i as int, 0);
        }
        let mut keep = true;
        if e.depth != 0 {
            match e.parent {
                Some(p) => {
                    match max_entries {
                        Some(m) => {
                            if !e.is_dir {
                                proof {
                                    lemma_files_before_bound(es, i as int, p);
                                }
                                if counts[p] >= m {
                                    let o = omitted[p];
                                    omitted.set(p, o + 1);
                                    keep = false;
                                } else {
                                    let c = counts[p];
                                    counts.set(p, c + 1);
                                }
                            }
                        },
                        None => {},
                    }
                },
                None => {},
            }
        }
        proof {
            assert(keep == shown(es, max_entries, i as int));
        }
        if keep {
            kept.push(i);
        }
        proof {
            assert(int_seq(kept@) == shown_upto(es, max_entries, i + 1));
        }
        i = i + 1;
    }
    (kept, omitted)
}

/// What holds of the flag table while the layout runs: each slot past the
/// root holds the flag of the most recent line at that depth.
pub open spec fn flags_track(flags: Seq<bool>, out: Seq<TreeItemView>) -> bool {
    &&& flags.len() == MAX_DEPTH
    &&& forall|k: int| 1 <= k < MAX_DEPTH ==> #[trigger] flags[k] == last_flag(out, k as nat)
}

/// What holds of the open directories while the layout runs.
pub open spec fn stack_ok(es: Seq<WalkEntry>, max: Option<usize>, stack: Seq<usize>) -> bool {
    forall|k: int|
        0 <= k < stack.len() ==> #[trigger] stack[k] < es.len() && shown(es, max, stack[k] as int)
            && es[stack[k] as int].is_dir
}

proof fn lemma_push_view(items: Seq<TreeItem>, it: TreeItem)
    ensures
        item_views(items.push(it)) == item_views(items).push(it@),
{
    assert(item_views(items.push(it)) =~= item_views(items).push(it@));
}

proof fn lemma_flags_after_push(flags: Seq<bool>, out: Seq<TreeItemView>, line: TreeItemView)
    requires
        flags_track(flags, out),
    ensures
        line.depth < MAX_DEPTH ==> flags_track(flags.update(line.depth as int, line.is_last), out.push(line)),
        line.depth >= MAX_DEPTH ==> flags_track(flags, out.push(line)),
{
    assert forall|k: int| 1 <= k < MAX_DEPTH implies #[trigger] last_flag(out.push(line), k as nat)
        == if line.depth == k { line.is_last } else { last_flag(out, k as nat) } by {
        lemma_last_flag_push(out, line, k as nat);
    }
}

/// Closes the open directories at depth `d` or deeper, as `close_dirs` says.
fn close_open_dirs(
    entries: &Vec<WalkEntry>,
    Ghost(max): Ghost<Option<usize>>,
    omitted: &Vec<usize>,
    items: &mut Vec<TreeItem>,
    stack: &mut Vec<usize>,
    flags: &mut Vec<bool>,
    d: usize,
)
    requires
        walk_fits(entries@, max),
        omitted@.len() == entries@.len(),
        forall|p: int| 0 <= p < entries@.len() ==> #[trigger] omitted@[p] == omitted_of(entries@, max, p as usize),
        flags_track(old(flags)@, item_views(old(items)@)),
        stack_ok(entries@, max, old(stack)@),
    ensures
        (item_views(final(items)@), int_seq(final(stack)@)) == close_dirs(
            entries@,
            max,
            item_views(old(items)@),
            int_seq(old(stack)@),
            d as nat,
        ),
        flags_track(final(flags)@, item_views(final(items)@)),
        stack_ok(entries@, max, final(stack)@),
{
    let ghost es = entries@;
    let ghost target = close_dirs(es, max, item_views(items@), int_seq(stack@), d as nat);
    loop
        invariant
            es == entries@,
            walk_fits(es, max),
            omitted@.len() == es.len(),
            forall|p: int| 0 <= p < es.len() ==> #[trigger] omitted@[p] == omitted_of(es, max, p as usize),
            flags_track(flags@, item_views(items@)),
            stack_ok(es, max, stack@),
            close_dirs(es, max, item_views(items@), int_seq(stack@), d as nat) == target,
        ensures
            (item_views(items@), int_seq(stack@)) == target,
            flags_track(flags@, item_views(items@)),
            stack_ok(es, max, stack@),
        decreases stack@.len(),
    {
        if stack.len() == 0 {
            break;
        }
        let top = stack[stack.len() - 1];
        if entries[top].depth < d {
            proof {
                assert(int_seq(stack@).last() == top as int);
            }
            break;
        }
        let ghost out = item_views(items@);
        proof {
            assert(int_seq(stack@).last() == top as int);
            assert(int_seq(stack@).drop_last() == int_seq(stack@.drop_last()));
        }
        let ghost prev_stack = stack@;
        stack.pop();
        assert(stack@ == prev_stack.drop_last());
        let count = omitted[top];
        if count > 0 {
            let od = entries[top].depth + 1;
            let it = omitted_item(count, od, flags, Ghost(out));
            proof {
                lemma_push_view(items@, it);
                lemma_flags_after_push(flags@, out, it@);
            }
            items.push(it);
            if od < MAX_DEPTH {
                flags.set(od, true);
            }
        }
        proof {
            assert forall|k: int| 0 <= k < stack@.len() implies #[trigger] stack@[k] < es.len() && shown(es, max, stack@[k] as int)
                && es[stack@[k] as int].is_dir by {
                assert(stack@[k] == prev_stack[k]);
            }
        }
    }
}

/// Whether a later listed entry at depth `d` comes before a shallower one,
/// looking from position `from` of `kept` on.
fn has_sibling_ahead(entries: &Vec<WalkEntry>, kept: &Vec<usize>, d: usize, from: usize) -> (r: bool)
    requires
        forall|k: int| 0 <= k < kept@.len() ==> #[trigger] kept@[k] < entries@.len(),
    ensures
        r == sibling_ahead(entries@, int_seq(kept@), d as nat, from as int),
{
    let ghost ks = int_seq(kept@);
    let mut j = from;
    while j < kept.len()
        invariant
            from <= j,
            ks == int_seq(kept@),
            forall|k: int| 0 <= k < kept@.len() ==> #[trigger] kept@[k] < entries@.len(),
            sibling_ahead(entries@, ks, d as nat, from as int) == sibling_ahead(entries@, ks, d as nat, j as int),
        decreases kept@.len() - j,
    {
        let nd = entries[kept[j]].depth;
        assert(ks[j as int] == kept@[j as int] as int);
        if nd < d {
            return false;
        }
        if nd == d {
            return true;
        }
        j = j + 1;
    }
    false
}

/// The line of a listed entry, before any theme styles it.
fn entry_item(e: &WalkEntry, is_last: bool, flags: &Vec<bool>, Ghost(out): Ghost<Seq<TreeItemView>>) -> (it: TreeItem)
    requires
        e.depth <= flags.len() == MAX_DEPTH,
        forall|k: int| 1 <= k < MAX_DEPTH ==> #[trigger] flags@[k] == last_flag(out, k as nat),
    ensures
        it@ == entry_line(*e, is_last, out),
{
    let mut colors = Vec::new();
    colors.push(ThemeColor::White);
    let anc = ancestors_of(flags, e.depth);
    let it = TreeItem {
        name: copy_string(&e.name),
        is_dir: e.is_dir,
        depth: e.depth,
        is_last,
        ancestor_is_last: anc,
        cached_colors: colors,
        cached_icon: String::new(),
        cached_speed: SPEED_ONE_BITS,
        cached_easing: Easing::linear(),
    };
    assert(it@.ancestor_is_last == ancestor_flags(out, e.depth as nat));
    assert(it@.cached_colors == seq![ThemeColor::White]);
    it
}

/// Lays out a directory walk as the lines of a tree. With a limit, each
/// directory lists at most `max_entries` of its files (directories are
/// always listed) and ends with a line counting the files it leaves out.
pub fn layout_tree(entries: &Vec<WalkEntry>, max_entries: Option<usize>) -> (items: Vec<TreeItem>)
    requires
        walk_fits(entries@, max_entries),
    ensures
        item_views(items@) == tree_layout(entries@, max_entries),
{
    let ghost es = entries@;
    let (kept, omitted) = select_entries(entries, max_entries);
    let ghost ks = int_seq(kept@);
    proof {
        lemma_shown_upto(es, max_entries, es.len() as int);
        assert forall|k: int| 0 <= k < kept@.len() implies #[trigger] kept@[k] < es.len() && shown(es, max_entries, kept@[k] as int) by {
            assert(ks[k] == kept@[k] as int);
        }
    }
    let mut flags: Vec<bool> = Vec::new();
    let mut z: usize = 0;
    while z < MAX_DEPTH
        invariant
            z <= MAX_DEPTH,
            flags@.len() == z,
            forall|k: int| 0 <= k < z ==> #[trigger] flags@[k] == false,
        decreases MAX_DEPTH - z,
    {
        flags.push(false);
        z = z + 1;
    }
    let mut items: Vec<TreeItem> = Vec::new();
    let mut stack: Vec<usize> = Vec::new();
    assert(item_views(items@) =~= Seq::<TreeItemView>::empty());
    assert(int_seq(stack@) =~= Seq::<int>::empty());
    let mut t: usize = 0;
    while t < kept.len()
        invariant
            es == entries@,
            t <= kept@.len(),
            ks == int_seq(kept@),
            ks == shown_indices(es, max_entries),
            walk_fits(es, max_entries),
            forall|k: int| 0 <= k < kept@.len() ==> #[trigger] kept@[k] < es.len() && shown(es, max_entries, kept@[k] as int),
            omitted@.len() == es.len(),
            forall|p: int| 0 <= p < es.len() ==> #[trigger] omitted@[p] == omitted_of(es, max_entries, p as usize),
            flags_track(flags@, item_views(items@)),
            stack_ok(es, max_entries, stack@),
            (item_views(items@), int_seq(stack@)) == layout_upto(es, max_entries, ks, t as int),
        decreases kept@.len() - t,
    {
        let idx = kept[t];
        let e = &entries[idx];
        let d = e.depth;
        assert(ks[t as int] == idx as int);
        close_open_dirs(entries, Ghost(max_entries), &omitted, &mut items, &mut stack, &mut flags, d);
        let ghost out = item_views(items@);
        let mut is_last = !has_sibling_ahead(entries, &kept, d, t + 1);
        if is_last {
            match e.parent {
                Some(p) => {
                    if omitted[p] > 0 {
                        is_last = false;
                    }
                },
                None => {},
            }
        }
        assert(is_last == entry_is_last(es, max_entries, ks, t as int));
        let it = entry_item(e, is_last, &flags, Ghost(out));
        proof {
            lemma_push_view(items@, it);
            lemma_flags_after_push(flags@, out, it@);
        }
        items.push(it);
        if d < MAX_DEPTH {
            flags.set(d, is_last);
        }
        if e.is_dir {
            let ghost before = stack@;
            stack.push(idx);
            proof {
                assert(int_seq(stack@) =~= int_seq(before).push(idx as int));
                assert forall|k: int| 0 <= k < stack@.len() implies #[trigger] stack@[k] < es.len() && shown(es, max_entries, stack@[k] as int)
                    && es[stack@[k] as int].is_dir by {
                    if k < before.len() {
                        assert(stack@[k] == before[k]);
                    }
                }
            }
        }
        t = t + 1;
    }
    close_open_dirs(entries, Ghost(max_entries), &omitted, &mut items, &mut stack, &mut flags, 0);
    items
}

// ---------------------------------------------------------------------------
// Styling the lines with a theme
// ---------------------------------------------------------------------------

/// Whether a name has the shape of an omitted-files line: it starts with
/// `"... "` and ends with `" omitted"`. Such lines keep their own style.
pub open spec fn is_omission_name(name: Seq<char>) -> bool {
    &&& name.len() >= 4 && name.take(4) == "... "@
    &&& name.len() >= 8 && name.skip(name.len() - 8) == " omitted"@
}

/// The first rule from position `k` on that accepts the entry's kind and
/// whose glob matched (`matches[r]` says whether rule `r` matched).
pub open spec fn first_rule(theme: RuntimeTheme, is_dir: bool, matches: Seq<bool>, k: int) -> Option<int>
    decreases theme.rules@.len() - k,
{
    if k < 0 || k >= theme.rules@.len() {
        None
    } else if theme.rules@[k].target.spec_accepts(is_dir) && matches[k] {
        Some(k)
    } else {
        first_rule(theme, is_dir, matches, k + 1)
    }
}

pub open spec fn restyle(
    it: TreeItemView,
    colors: Seq<ThemeColor>,
    icon: Seq<char>,
    speed: u32,
    easing: EasingView,
) -> TreeItemView {
    TreeItemView {
        cached_colors: colors,
        cached_icon: icon,
        cached_speed: speed,
        cached_easing: easing,
        ..it
    }
}

/// The line styled by the theme: omitted-files lines are left alone; any
/// other line takes the style of the first rule that accepts its kind and
/// matched its name, or else the directory or file default.
pub open spec fn styled(it: TreeItemView, theme: RuntimeTheme, matches: Seq<bool>) -> TreeItemView {
    if is_omission_name(it.name) {
        it
    } else {
        match first_rule(theme, it.is_dir, matches, 0) {
            Some(r) => restyle(
                it,
                theme.rules@[r].colors@,
                theme.rules@[r].icon@,
                theme.rules@[r].anim_speed,
                theme.rules@[r].anim_easing@,
            ),
            None => if it.is_dir {
                restyle(it, theme.dir_colors@, theme.dir_icon@, theme.dir_speed, theme.dir_easing@)
            } else {
                restyle(it, theme.file_colors@, theme.file_icon@, theme.file_speed, theme.file_easing@)
            },
        }
    }
}

fn copy_colors(v: &Vec<ThemeColor>) -> (r: Vec<ThemeColor>)
    ensures
        r@ == v@,
{
    let mut r: Vec<ThemeColor> = Vec::new();
    let mut i: usize = 0;
    while i < v.len()
        invariant
            i <= v@.len(),
            r@ == v@.take(i as int),
        decreases v@.len() - i,
    {
        r.push(v[i]);
        assert(v@.take(i + 1) == v@.take(i as int).push(v@[i as int]));
        i = i + 1;
    }
    assert(v@.take(v@.len() as int) == v@);
    r
}

fn has_prefix(s: &Vec<char>, pre: &Vec<char>) -> (b: bool)
    ensures
        b == (pre@.len() <= s@.len() && s@.take(pre@.len() as int) == pre@),
{
    if pre.len() > s.len() {
        return false;
    }
    let mut i: usize = 0;
    while i < pre.len()
        invariant
            i <= pre@.len() <= s@.len(),
            forall|j: int| 0 <= j < i ==> s@[j] == pre@[j],
        decreases pre@.len() - i,
    {
        if s[i] != pre[i] {
            assert(s@.take(pre@.len() as int)[i as int] != pre@[i as int]);
            return false;
        }
        i = i + 1;
    }
    assert(s@.take(pre@.len() as int) =~= pre@);
    true
}

fn has_suffix(s: &Vec<char>, suf: &Vec<char>) -> (b: bool)
    ensures
        b == (suf@.len() <= s@.len() && s@.skip(s@.len() - suf@.len()) == suf@),
{
    if suf.len() > s.len() {
        return false;
    }
    let off = s.len() - suf.len();
    let mut i: usize = 0;
    while i < suf.len()
        invariant
            off + suf.len() == s.len(),
            suf@.len() == suf.len(),
            i <= suf@.len(),
            forall|j: int| 0 <= j < i ==> s@[off + j] == suf@[j],
        decreases suf@.len() - i,
    {
        if s[off + i] != suf[i] {
            assert(s@.skip(off as int)[i as int] != suf@[i as int]);
            return false;
        }
        i = i + 1;
    }
    assert(s@.skip(off as int) =~= suf@);
    true
}

/// Whether `name` has the shape of an omitted-files line.
pub fn omission_name(name: &str) -> (b: bool)
    ensures
        b == is_omission_name(name@),
{
    let cs = chars_of(name);
    let pre = chars_of("... ");
    let suf = chars_of(" omitted");
    proof {
        reveal_strlit("... ");
        reveal_strlit(" omitted");
    }
    has_prefix(&cs, &pre) && has_suffix(&cs, &suf)
}

/// Styles one line given, for each rule, whether its glob matched the name.
pub fn style_item(item: &mut TreeItem, theme: &RuntimeTheme, matches: &Vec<bool>)
    requires
        matches@.len() == theme.rules@.len(),
    ensures
        final(item)@ == styled(old(item)@, *theme, matches@),
{
    if omission_name(item.name.as_str()) {
        return;
    }
    let mut r: usize = 0;
    while r < theme.rules.len()
        invariant
            r <= theme.rules@.len() == matches@.len(),
            first_rule(*theme, item.is_dir, matches@, 0) == first_rule(*theme, item.is_dir, matches@, r as int),
            item@ == old(item)@,
            !is_omission_name(item.name@),
        decreases theme.rules@.len() - r,
    {
        let rule = &theme.rules[r];
        if rule.target.accepts(item.is_dir) && matches[r] {
            item.cached_colors = copy_colors(&rule.colors);
            item.cached_icon = copy_string(&rule.icon);
            item.cached_speed = rule.anim_speed;
            item.cached_easing = rule.anim_easing.duplicate();
            return;
        }
        r = r + 1;
    }
    if item.is_dir {
        item.cached_colors = copy_colors(&theme.dir_colors);
        item.cached_icon = copy_string(&theme.dir_icon);
        item.cached_speed = theme.dir_speed;
        item.cached_easing = theme.dir_easing.duplicate();
    } else {
        item.cached_colors = copy_colors(&theme.file_colors);
        item.cached_icon = copy_string(&theme.file_icon);
        item.cached_speed = theme.file_speed;
        item.cached_easing = theme.file_easing.duplicate();
    }
}

/// What each rule's glob answers for `name`, in rule order.
pub open spec fn glob_answers(theme: RuntimeTheme, name: Seq<char>) -> Seq<bool> {
    Seq::new(
        theme.rules@.len(),
        |r: int| glob_compiles(theme.rules@[r].glob@) && glob_matches(theme.rules@[r].glob@, name),
    )
}

/// The line as the theme styles it, its rules' globs asked about its name.
pub open spec fn themed(it: TreeItemView, theme: RuntimeTheme) -> TreeItemView {
    styled(it, theme, glob_answers(theme, it.name))
}

/// Asks each rule's glob whether it matches `name`.
fn rule_matches(theme: &RuntimeTheme, name: &str) -> (m: Vec<bool>)
    ensures
        m@ == glob_answers(*theme, name@),
{
    let mut m: Vec<bool> = Vec::new();
    let mut r: usize = 0;
    while r < theme.rules.len()
        invariant
            r <= theme.rules@.len(),
            m@ == glob_answers(*theme, name@).take(r as int),
        decreases theme.rules@.len() - r,
    {
        let b = glob_match(theme.rules[r].glob.as_str(), name);
        proof {
            assert(glob_answers(*theme, name@).take(r + 1) == glob_answers(*theme, name@).take(r as int).push(b));
        }
        m.push(b);
        r = r + 1;
    }
    assert(glob_answers(*theme, name@).take(r as int) == glob_answers(*theme, name@));
    m
}

/// Styles every line of the tree with the theme: omitted-files lines keep
/// their style; any other line takes the style of the first rule that
/// accepts its kind and whose glob matches its name, or else the directory
/// or file default.
pub fn apply_theme_to_tree(items: &mut Vec<TreeItem>, theme: &RuntimeTheme)
    ensures
        final(items)@.len() == old(items)@.len(),
        forall|k: int|
            0 <= k < final(items)@.len() ==> (#[trigger] final(items)@[k])@ == themed(old(items)@[k]@, *theme),
{
    let ghost start = items@;
    let mut k: usize = 0;
    while k < items.len()
        invariant
            start == old(items)@,
            k <= items@.len() == start.len(),
            forall|j: int| k <= j < items@.len() ==> #[trigger] items@[j] == start[j],
            forall|j: int| 0 <= j < k ==> (#[trigger] items@[j])@ == themed(start[j]@, *theme),
        decreases items@.len() - k,
    {
        let m = rule_matches(theme, items[k].name.as_str());
        let ghost before = items@;
        let mut it = items.remove(k);
        style_item(&mut it, theme, &m);
        items.insert(k, it);
        proof {
            assert(items@ =~= before.update(k as int, it));
            assert(it@ == themed(start[k as int]@, *theme));
            assert forall|j: int| 0 <= j < k + 1 implies (#[trigger] items@[j])@ == themed(start[j]@, *theme) by {
                if j < k {
                    assert(items@[j] == before[j]);
                }
            }
        }
        k = k + 1;
    }
}

// ---------------------------------------------------------------------------
// The tree as text
// ---------------------------------------------------------------------------

/// The branch columns drawn for the levels above a line: blank where that
/// level's line was the last child, a vertical bar where more follow.
pub open spec fn branch_columns(flags: Seq<bool>) -> Seq<char>
    decreases flags.len(),
{
    if flags.len() == 0 {
        seq![]
    } else {
        branch_columns(flags.drop_last()) + if flags.last() {
            "    "@
        } else {
            "│   "@
        }
    }
}

/// The indentation drawn before a line's icon; the root has none.
pub open spec fn indent_text(it: TreeItemView) -> Seq<char> {
    if it.depth > 0 {
        branch_columns(it.ancestor_is_last) + if it.is_last {
            "└── "@
        } else {
            "├── "@
        }
    } else {
        seq![]
    }
}

/// One line of the tree as text: indentation, icon, a space, the name.
pub open spec fn line_text(it: TreeItemView) -> Seq<char> {
    indent_text(it) + it.cached_icon + seq![' '] + it.name + seq!['\n']
}

/// The whole tree as text, one line per item.
pub open spec fn tree_text_of(items: Seq<TreeItemView>) -> Seq<char>
    decreases items.len(),
{
    if items.len() == 0 {
        seq![]
    } else {
        tree_text_of(items.drop_last()) + line_text(items.last())
    }
}

/// The indentation drawn before a line's icon.
pub fn item_indent(it: &TreeItem) -> (s: String)
    ensures
        s@ == indent_text(it@),
{
    let mut s = String::new();
    if it.depth > 0 {
        let mut k: usize = 0;
        while k < it.ancestor_is_last.len()
            invariant
                k <= it.ancestor_is_last@.len(),
                s@ == branch_columns(it.ancestor_is_last@.take(k as int)),
            decreases it.ancestor_is_last@.len() - k,
        {
            assert(it.ancestor_is_last@.take(k + 1).drop_last() == it.ancestor_is_last@.take(k as int));
            if it.ancestor_is_last[k] {
                push_str(&mut s, "    ");
            } else {
                push_str(&mut s, "│   ");
            }
            k = k + 1;
        }
        assert(it.ancestor_is_last@.take(it.ancestor_is_last@.len() as int) == it.ancestor_is_last@);
        if it.is_last {
            push_str(&mut s, "└── ");
        } else {
            push_str(&mut s, "├── ");
        }
    }
    s
}

/// The tree as the text that is copied to the clipboard.
pub fn tree_text(items: &Vec<TreeItem>) -> (s: String)
    ensures
        s@ == tree_text_of(item_views(items@)),
{
    let mut s = String::new();
    let mut k: usize = 0;
    while k < items.len()
        invariant
            k <= items@.len(),
            s@ == tree_text_of(item_views(items@.take(k as int))),
        decreases items@.len() - k,
    {
        let it = &items[k];
        let indent = item_indent(it);
        push_str(&mut s, indent.as_str());
        push_str(&mut s, it.cached_icon.as_str());
        push_char(&mut s, ' ');
        push_str(&mut s, it.name.as_str());
        push_char(&mut s, '\n');
        proof {
            assert(item_views(items@.take(k + 1)).drop_last() == item_views(items@.take(k as int)));
            assert(item_views(items@.take(k + 1)).last() == it@);
            assert(s@ =~= tree_text_of(item_views(items@.take(k as int))) + line_text(it@));
        }
        k = k + 1;
    }
    assert(items@.take(items@.len() as int) == items@);
    s
}

proof fn lemma_tree_text_concat(a: Seq<TreeItemView>, b: Seq<TreeItemView>)
    ensures
        tree_text_of(a + b) == tree_text_of(a) + tree_text_of(b),
    decreases b.len(),
{
    if b.len() == 0 {
        assert(a + b == a);
        assert(tree_text_of(a) + tree_text_of(b) == tree_text_of(a));
    } else {
        assert((a + b).drop_last() == a + b.drop_last());
        assert((a + b).last() == b.last());
        lemma_tree_text_concat(a, b.drop_last());
    }
}

/// The text copied to the clipboard holds, for each line of the tree and
/// in order, exactly what is drawn for it (its indentation, icon, a space
/// and its name), ended by a newline.
pub proof fn law_copied_text_is_drawn_lines(items: Seq<TreeItemView>, i: int)
    requires
        0 <= i < items.len(),
    ensures
        tree_text_of(items) == tree_text_of(items.take(i)) + (indent_text(items[i]) + items[i].cached_icon
            + seq![' '] + items[i].name) + seq!['\n'] + tree_text_of(items.skip(i + 1)),
{
    let one = seq![items[i]];
    assert(items == items.take(i) + one + items.skip(i + 1));
    lemma_tree_text_concat(items.take(i) + one, items.skip(i + 1));
    lemma_tree_text_concat(items.take(i), one);
    assert(one.drop_last() == Seq::<TreeItemView>::empty());
    assert(one.last() == items[i]);
    assert(tree_text_of(one.drop_last()) == Seq::<char>::empty());
    assert(tree_text_of(one) =~= line_text(items[i]));
}

// ---------------------------------------------------------------------------
// Laws of the layout and of styling
// ---------------------------------------------------------------------------

/// How many of the first `n` entries are listed files of directory `p`.
pub open spec fn shown_files(es: Seq<WalkEntry>, max: Option<usize>, n: int, p: usize) -> nat
    decreases n,
{
    if n <= 0 {
        0
    } else {
        shown_files(es, max, n - 1, p) + if counts_toward(es[n - 1], p) && shown(es, max, n - 1) {
            1nat
        } else {
            0nat
        }
    }
}

proof fn lemma_shown_files_min(es: Seq<WalkEntry>, m: usize, n: int, p: usize)
    requires
        0 <= n <= es.len(),
    ensures
        shown_files(es, Some(m), n, p) == if files_before(es, n, p) < m {
            files_before(es, n, p)
        } else {
            m as nat
        },
    decreases n,
{
    if n > 0 {
        lemma_shown_files_min(es, m, n - 1, p);
    }
}

/// A limit on the entries per directory never lists more than `m` files of
/// one directory, and the files it leaves out are exactly those counted on
/// the directory's omitted-files line.
pub proof fn law_limit_per_directory(es: Seq<WalkEntry>, m: usize, p: usize)
    ensures
        shown_files(es, Some(m), es.len() as int, p) <= m,
        shown_files(es, Some(m), es.len() as int, p) + omitted_of(es, Some(m), p) == files_before(
            es,
            es.len() as int,
            p,
        ),
{
    lemma_shown_files_min(es, m, es.len() as int, p);
}

/// Directories are never left out by the limit, nor is anything left out
/// without one.
pub proof fn law_directories_always_listed(es: Seq<WalkEntry>, max: Option<usize>, i: int)
    requires
        0 <= i < es.len(),
        es[i].is_dir || max is None,
    ensures
        shown(es, max, i),
{
}

/// How many of the directories in `s` have omitted files.
pub open spec fn with_omissions(es: Seq<WalkEntry>, max: Option<usize>, s: Seq<int>) -> nat
    decreases s.len(),
{
    if s.len() == 0 {
        0
    } else {
        with_omissions(es, max, s.drop_last()) + if omitted_of(es, max, s.last() as usize) > 0 {
            1nat
        } else {
            0nat
        }
    }
}

/// How many of the listed entries are directories with omitted files.
pub open spec fn dirs_with_omissions(es: Seq<WalkEntry>, max: Option<usize>, ks: Seq<int>) -> nat
    decreases ks.len(),
{
    if ks.len() == 0 {
        0
    } else {
        dirs_with_omissions(es, max, ks.drop_last()) + if es[ks.last()].is_dir && omitted_of(
            es,
            max,
            ks.last() as usize,
        ) > 0 {
            1nat
        } else {
            0nat
        }
    }
}

proof fn lemma_close_dirs_count(
    es: Seq<WalkEntry>,
    max: Option<usize>,
    out: Seq<TreeItemView>,
    stack: Seq<int>,
    d: nat,
)
    ensures
        close_dirs(es, max, out, stack, d).0.len() + with_omissions(es, max, close_dirs(es, max, out, stack, d).1)
            == out.len() + with_omissions(es, max, stack),
        d == 0 ==> close_dirs(es, max, out, stack, d).1.len() == 0,
    decreases stack.len(),
{
    if stack.len() > 0 && es[stack.last()].depth >= d {
        let top = stack.last();
        let c = omitted_of(es, max, top as usize);
        let out2 = if c > 0 {
            out.push(omitted_line(c, (es[top].depth + 1) as nat, out))
        } else {
            out
        };
        lemma_close_dirs_count(es, max, out2, stack.drop_last(), d);
    }
}

proof fn lemma_layout_count(es: Seq<WalkEntry>, max: Option<usize>, ks: Seq<int>, n: int)
    requires
        0 <= n <= ks.len(),
    ensures
        layout_upto(es, max, ks, n).0.len() + with_omissions(es, max, layout_upto(es, max, ks, n).1) == n
            + dirs_with_omissions(es, max, ks.take(n)),
    decreases n,
{
    if n > 0 {
        lemma_layout_count(es, max, ks, n - 1);
        let st = layout_upto(es, max, ks, n - 1);
        let e = es[ks[n - 1]];
        lemma_close_dirs_count(es, max, st.0, st.1, e.depth as nat);
        let closed = close_dirs(es, max, st.0, st.1, e.depth as nat);
        assert(ks.take(n).drop_last() == ks.take(n - 1));
        assert(ks.take(n).last() == ks[n - 1]);
        if e.is_dir {
            assert(closed.1.push(ks[n - 1]).drop_last() == closed.1);
        }
    }
}

/// The tree has one line per listed entry and one omitted-files line per
/// listed directory that leaves files out.
pub proof fn law_line_count(es: Seq<WalkEntry>, max: Option<usize>)
    ensures
        tree_layout(es, max).len() == shown_indices(es, max).len() + dirs_with_omissions(
            es,
            max,
            shown_indices(es, max),
        ),
{
    let ks = shown_indices(es, max);
    lemma_layout_count(es, max, ks, ks.len() as int);
    let st = layout_upto(es, max, ks, ks.len() as int);
    lemma_close_dirs_count(es, max, st.0, st.1, 0);
    assert(ks.take(ks.len() as int) == ks);
}

/// The name, kind and depth of each entry line among `out` (the lines
/// drawn at full speed, before styling), in order; omitted-files lines are
/// left out.
pub open spec fn entry_lines(out: Seq<TreeItemView>) -> Seq<(Seq<char>, bool, nat)>
    decreases out.len(),
{
    if out.len() == 0 {
        seq![]
    } else {
        let l = out.last();
        entry_lines(out.drop_last()) + if l.cached_speed == SPEED_ONE_BITS {
            seq![(l.name, l.is_dir, l.depth)]
        } else {
            Seq::empty()
        }
    }
}

/// The name, kind and depth of each listed entry, in walk order.
pub open spec fn listed_entries(es: Seq<WalkEntry>, ks: Seq<int>) -> Seq<(Seq<char>, bool, nat)> {
    ks.map_values(|k: int| (es[k].name@, es[k].is_dir, es[k].depth as nat))
}

proof fn lemma_entry_lines_push(out: Seq<TreeItemView>, l: TreeItemView)
    ensures
        entry_lines(out.push(l)) == entry_lines(out) + if l.cached_speed == SPEED_ONE_BITS {
            seq![(l.name, l.is_dir, l.depth)]
        } else {
            Seq::empty()
        },
{
    assert(out.push(l).drop_last() == out);
}

proof fn lemma_close_dirs_entries(
    es: Seq<WalkEntry>,
    max: Option<usize>,
    out: Seq<TreeItemView>,
    stack: Seq<int>,
    d: nat,
)
    ensures
        entry_lines(close_dirs(es, max, out, stack, d).0) == entry_lines(out),
    decreases stack.len(),
{
    if stack.len() > 0 && es[stack.last()].depth >= d {
        let top = stack.last();
        let c = omitted_of(es, max, top as usize);
        if c > 0 {
            let l = omitted_line(c, (es[top].depth + 1) as nat, out);
            lemma_entry_lines_push(out, l);
            assert(entry_lines(out.push(l)) =~= entry_lines(out));
            lemma_close_dirs_entries(es, max, out.push(l), stack.drop_last(), d);
        } else {
            lemma_close_dirs_entries(es, max, out, stack.drop_last(), d);
        }
    }
}

proof fn lemma_layout_entries(es: Seq<WalkEntry>, max: Option<usize>, ks: Seq<int>, n: int)
    requires
        0 <= n <= ks.len(),
    ensures
        entry_lines(layout_upto(es, max, ks, n).0) == listed_entries(es, ks.take(n)),
    decreases n,
{
    if n == 0 {
        assert(listed_entries(es, ks.take(0)) =~= seq![]);
    } else {
        lemma_layout_entries(es, max, ks, n - 1);
        let st = layout_upto(es, max, ks, n - 1);
        let e = es[ks[n - 1]];
        let closed = close_dirs(es, max, st.0, st.1, e.depth as nat);
        lemma_close_dirs_entries(es, max, st.0, st.1, e.depth as nat);
        let line = entry_line(e, entry_is_last(es, max, ks, n - 1), closed.0);
        lemma_entry_lines_push(closed.0, line);
        assert(listed_entries(es, ks.take(n)) =~= listed_entries(es, ks.take(n - 1)).push(
            (e.name@, e.is_dir, e.depth as nat),
        ));
    }
}

/// Every listed entry has its own line, and these lines come in walk order:
/// leaving out the omitted-files lines, the tree reads the listed entries
/// one by one.
pub proof fn law_entries_in_walk_order(es: Seq<WalkEntry>, max: Option<usize>)
    ensures
        entry_lines(tree_layout(es, max)) == listed_entries(es, shown_indices(es, max)),
{
    let ks = shown_indices(es, max);
    lemma_layout_entries(es, max, ks, ks.len() as int);
    let st = layout_upto(es, max, ks, ks.len() as int);
    lemma_close_dirs_entries(es, max, st.0, st.1, 0);
    assert(ks.take(ks.len() as int) == ks);
}

/// The "is last child" flag of each entry line among `out` (the lines
/// drawn at full speed, before styling), in order.
pub open spec fn entry_flags(out: Seq<TreeItemView>) -> Seq<bool>
    decreases out.len(),
{
    if out.len() == 0 {
        seq![]
    } else {
        let l = out.last();
        entry_flags(out.drop_last()) + if l.cached_speed == SPEED_ONE_BITS {
            seq![l.is_last]
        } else {
            Seq::empty()
        }
    }
}

proof fn lemma_entry_flags_push(out: Seq<TreeItemView>, l: TreeItemView)
    ensures
        entry_flags(out.push(l)) == entry_flags(out) + if l.cached_speed == SPEED_ONE_BITS {
            seq![l.is_last]
        } else {
            Seq::empty()
        },
{
    assert(out.push(l).drop_last() == out);
}

proof fn lemma_close_dirs_flags(
    es: Seq<WalkEntry>,
    max: Option<usize>,
    out: Seq<TreeItemView>,
    stack: Seq<int>,
    d: nat,
)
    ensures
        entry_flags(close_dirs(es, max, out, stack, d).0) == entry_flags(out),
    decreases stack.len(),
{
    if stack.len() > 0 && es[stack.last()].depth >= d {
        let top = stack.last();
        let c = omitted_of(es, max, top as usize);
        if c > 0 {
            let l = omitted_line(c, (es[top].depth + 1) as nat, out);
            lemma_entry_flags_push(out, l);
            assert(entry_flags(out.push(l)) =~= entry_flags(out));
            lemma_close_dirs_flags(es, max, out.push(l), stack.drop_last(), d);
        } else {
            lemma_close_dirs_flags(es, max, out, stack.drop_last(), d);
        }
    }
}

proof fn lemma_layout_flags(es: Seq<WalkEntry>, max: Option<usize>, ks: Seq<int>, n: int)
    requires
        0 <= n <= ks.len(),
    ensures
        entry_flags(layout_upto(es, max, ks, n).0) == Seq::new(n as nat, |i: int| entry_is_last(es, max, ks, i)),
    decreases n,
{
    if n == 0 {
        assert(Seq::new(0nat, |i: int| entry_is_last(es, max, ks, i)) =~= seq![]);
    } else {
        lemma_layout_flags(es, max, ks, n - 1);
        let st = layout_upto(es, max, ks, n - 1);
        let e = es[ks[n - 1]];
        let closed = close_dirs(es, max, st.0, st.1, e.depth as nat);
        lemma_close_dirs_flags(es, max, st.0, st.1, e.depth as nat);
        let line = entry_line(e, entry_is_last(es, max, ks, n - 1), closed.0);
        lemma_entry_flags_push(closed.0, line);
        assert(Seq::new(n as nat, |i: int| entry_is_last(es, max, ks, i)) =~= Seq::new(
            (n - 1) as nat,
            |i: int| entry_is_last(es, max, ks, i),
        ).push(entry_is_last(es, max, ks, n - 1)));
    }
}

/// The `i`-th entry line of the tree (the `i`-th listed entry) is drawn as
/// the last child exactly when no later listed entry at its depth comes
/// before a shallower one, and its directory leaves no files out.
pub proof fn law_drawn_last_child_flags(es: Seq<WalkEntry>, max: Option<usize>, i: int)
    requires
        0 <= i < shown_indices(es, max).len(),
    ensures
        ({
            let ks = shown_indices(es, max);
            let flags = entry_flags(tree_layout(es, max));
            &&& flags.len() == ks.len()
            &&& flags[i] <==> {
                &&& !exists|m: int|
                    i < m < ks.len() && #[trigger] es[ks[m]].depth == es[ks[i]].depth && forall|l: int|
                        i < l < m ==> #[trigger] es[ks[l]].depth > es[ks[i]].depth
                &&& !(es[ks[i]].parent matches Some(p) && omitted_of(es, max, p) > 0)
            }
        }),
{
    let ks = shown_indices(es, max);
    lemma_layout_flags(es, max, ks, ks.len() as int);
    let st = layout_upto(es, max, ks, ks.len() as int);
    lemma_close_dirs_flags(es, max, st.0, st.1, 0);
    law_last_child_when_no_sibling_follows(es, max, ks, i);
}

/// Whether every omitted-files line among `out` ends its directory: the
/// line after it, if any, lies shallower.
pub open spec fn omissions_close_their_directory(out: Seq<TreeItemView>) -> bool {
    forall|j: int|
        0 <= j < out.len() - 1 && (#[trigger] out[j]).cached_speed != SPEED_ONE_BITS ==> out[j + 1].depth
            < out[j].depth
}

/// The open directories, innermost last, lie ever deeper.
spec fn deepening(es: Seq<WalkEntry>, stack: Seq<int>) -> bool {
    forall|a: int, b: int| 0 <= a < b < stack.len() ==> es[stack[a]].depth < es[stack[b]].depth
}

/// If `out` ends with an omitted-files line, that line lies deeper than `d`
/// and deeper than the omitted-files line of any open directory.
spec fn tail_above(es: Seq<WalkEntry>, out: Seq<TreeItemView>, stack: Seq<int>, d: nat) -> bool {
    out.len() > 0 && out.last().cached_speed != SPEED_ONE_BITS ==> {
        &&& out.last().depth > d
        &&& stack.len() > 0 ==> out.last().depth > es[stack.last()].depth + 1
    }
}

proof fn lemma_close_dirs_order(
    es: Seq<WalkEntry>,
    max: Option<usize>,
    out: Seq<TreeItemView>,
    stack: Seq<int>,
    d: nat,
)
    requires
        deepening(es, stack),
        omissions_close_their_directory(out),
        tail_above(es, out, stack, d),
    ensures
        omissions_close_their_directory(close_dirs(es, max, out, stack, d).0),
        close_dirs(es, max, out, stack, d).1 == stack.take(close_dirs(es, max, out, stack, d).1.len() as int),
        close_dirs(es, max, out, stack, d).1.len() <= stack.len(),
        tail_above(es, close_dirs(es, max, out, stack, d).0, seq![], d),
        close_dirs(es, max, out, stack, d).1.len() > 0 ==> es[close_dirs(es, max, out, stack, d).1.last()].depth
            < d,
    decreases stack.len(),
{
    if stack.len() > 0 && es[stack.last()].depth >= d {
        let top = stack.last();
        let rest = stack.drop_last();
        let c = omitted_of(es, max, top as usize);
        assert(deepening(es, rest));
        if c > 0 {
            let l = omitted_line(c, (es[top].depth + 1) as nat, out);
            let out2 = out.push(l);
            assert forall|j: int|
                0 <= j < out2.len() - 1 && (#[trigger] out2[j]).cached_speed != SPEED_ONE_BITS implies out2[j
                + 1].depth < out2[j].depth by {
                if j < out.len() - 1 {
                    assert(out2[j] == out[j]);
                    assert(out2[j + 1] == out[j + 1]);
                } else {
                    assert(out2[j] == out.last());
                }
            }
            if rest.len() > 0 {
                assert(es[rest.last()].depth < es[top].depth) by {
                    assert(rest.last() == stack[stack.len() - 2]);
                }
            }
            lemma_close_dirs_order(es, max, out2, rest, d);
        } else {
            if out.len() > 0 && out.last().cached_speed != SPEED_ONE_BITS && rest.len() > 0 {
                assert(rest.last() == stack[stack.len() - 2]);
            }
            lemma_close_dirs_order(es, max, out, rest, d);
        }
        let r = close_dirs(es, max, out, stack, d).1;
        assert(r == rest.take(r.len() as int));
        assert(r =~= stack.take(r.len() as int));
    } else {
        assert(stack.take(stack.len() as int) =~= stack);
    }
}

proof fn lemma_layout_order(es: Seq<WalkEntry>, max: Option<usize>, ks: Seq<int>, n: int)
    requires
        0 <= n <= ks.len(),
    ensures
        omissions_close_their_directory(layout_upto(es, max, ks, n).0),
        deepening(es, layout_upto(es, max, ks, n).1),
        n > 0 ==> layout_upto(es, max, ks, n).0.last().cached_speed == SPEED_ONE_BITS,
        n == 0 ==> layout_upto(es, max, ks, n).0.len() == 0,
    decreases n,
{
    if n > 0 {
        lemma_layout_order(es, max, ks, n - 1);
        let st = layout_upto(es, max, ks, n - 1);
        let e = es[ks[n - 1]];
        let d = e.depth as nat;
        lemma_close_dirs_order(es, max, st.0, st.1, d);
        let closed = close_dirs(es, max, st.0, st.1, d);
        let line = entry_line(e, entry_is_last(es, max, ks, n - 1), closed.0);
        let out = closed.0.push(line);
        assert forall|j: int|
            0 <= j < out.len() - 1 && (#[trigger] out[j]).cached_speed != SPEED_ONE_BITS implies out[j
            + 1].depth < out[j].depth by {
            if j < closed.0.len() - 1 {
                assert(out[j] == closed.0[j]);
                assert(out[j + 1] == closed.0[j + 1]);
            } else {
                assert(out[j] == closed.0.last());
            }
        }
        assert forall|a: int, b: int| 0 <= a < b < closed.1.len() implies es[closed.1[a]].depth
            < es[closed.1[b]].depth by {
            assert(closed.1[a] == st.1[a]);
            assert(closed.1[b] == st.1[b]);
        }
        if e.is_dir {
            let s2 = closed.1.push(ks[n - 1]);
            assert forall|a: int, b: int| 0 <= a < b < s2.len() implies es[s2[a]].depth < es[s2[b]].depth by {
                if b == s2.len() - 1 {
                    if a < closed.1.len() - 1 {
                        assert(es[closed.1[a]].depth < es[closed.1.last()].depth);
                    }
                } else {
                    assert(s2[a] == closed.1[a]);
                    assert(s2[b] == closed.1[b]);
                }
            }
        }
    }
}

/// An omitted-files line is the last line of its directory: whatever
/// follows it lies shallower.
pub proof fn law_omissions_close_their_directory(es: Seq<WalkEntry>, max: Option<usize>)
    ensures
        omissions_close_their_directory(tree_layout(es, max)),
{
    let ks = shown_indices(es, max);
    lemma_layout_order(es, max, ks, ks.len() as int);
    let st = layout_upto(es, max, ks, ks.len() as int);
    lemma_close_dirs_order(es, max, st.0, st.1, 0);
}

/// Styling changes only how a line looks: its name, kind, depth and branch
/// flags stay as they were.
pub proof fn law_styling_keeps_structure(it: TreeItemView, theme: RuntimeTheme, m: Seq<bool>)
    ensures
        styled(it, theme, m).name == it.name,
        styled(it, theme, m).is_dir == it.is_dir,
        styled(it, theme, m).depth == it.depth,
        styled(it, theme, m).is_last == it.is_last,
        styled(it, theme, m).ancestor_is_last == it.ancestor_is_last,
{
}

/// Styling a line a second time with the same theme and the same glob
/// answers changes nothing more.
pub proof fn law_styling_idempotent(it: TreeItemView, theme: RuntimeTheme, m: Seq<bool>)
    ensures
        styled(styled(it, theme, m), theme, m) == styled(it, theme, m),
{
}

/// Styling overwrites the whole look of a line: styling with one theme and
/// then another is styling with the second alone, and styling twice with
/// the same theme is styling once.
pub proof fn law_restyling_forgets_earlier_theme(it: TreeItemView, t1: RuntimeTheme, t2: RuntimeTheme)
    ensures
        themed(themed(it, t1), t2) == themed(it, t2),
        themed(themed(it, t1), t1) == themed(it, t1),
{
    assert(themed(themed(it, t1), t2) =~= themed(it, t2));
    assert(themed(themed(it, t1), t1) =~= themed(it, t1));
}

/// Looking from the `j`-th listed entry on, another entry at depth `d` is
/// ahead exactly when one comes before any shallower entry: some later
/// listed entry has depth `d`, and every listed entry between lies deeper.
pub proof fn law_sibling_ahead_stops_at_shallower(es: Seq<WalkEntry>, ks: Seq<int>, d: nat, j: int)
    requires
        0 <= j,
    ensures
        sibling_ahead(es, ks, d, j) <==> exists|m: int|
            j <= m < ks.len() && #[trigger] es[ks[m]].depth == d && forall|l: int|
                j <= l < m ==> #[trigger] es[ks[l]].depth > d,
    decreases ks.len() - j,
{
    if j >= ks.len() {
    } else if es[ks[j]].depth < d {
        if exists|m: int|
            j <= m < ks.len() && #[trigger] es[ks[m]].depth == d && forall|l: int|
                j <= l < m ==> #[trigger] es[ks[l]].depth > d {
            let m = choose|m: int|
                j <= m < ks.len() && #[trigger] es[ks[m]].depth == d && forall|l: int|
                    j <= l < m ==> #[trigger] es[ks[l]].depth > d;
            if m > j {
                assert(es[ks[j]].depth > d);
            }
        }
    } else if es[ks[j]].depth == d {
        assert(forall|l: int| j <= l < j ==> #[trigger] es[ks[l]].depth > d);
    } else {
        law_sibling_ahead_stops_at_shallower(es, ks, d, j + 1);
        if sibling_ahead(es, ks, d, j + 1) {
            let m = choose|m: int|
                j + 1 <= m < ks.len() && #[trigger] es[ks[m]].depth == d && forall|l: int|
                    j + 1 <= l < m ==> #[trigger] es[ks[l]].depth > d;
            assert forall|l: int| j <= l < m implies #[trigger] es[ks[l]].depth > d by {
                if l > j {
                    assert(j + 1 <= l < m);
                }
            }
        }
        if exists|m: int|
            j <= m < ks.len() && #[trigger] es[ks[m]].depth == d && forall|l: int|
                j <= l < m ==> #[trigger] es[ks[l]].depth > d {
            let m = choose|m: int|
                j <= m < ks.len() && #[trigger] es[ks[m]].depth == d && forall|l: int|
                    j <= l < m ==> #[trigger] es[ks[l]].depth > d;
            assert(m != j);
            assert forall|l: int| j + 1 <= l < m implies #[trigger] es[ks[l]].depth > d by {
                assert(j <= l < m);
            }
        }
    }
}

/// A listed entry is drawn as the last child exactly when no later listed
/// entry at its depth comes before a shallower one, and its directory
/// leaves no files out.
pub proof fn law_last_child_when_no_sibling_follows(es: Seq<WalkEntry>, max: Option<usize>, ks: Seq<int>, i: int)
    requires
        0 <= i < ks.len(),
    ensures
        entry_is_last(es, max, ks, i) <==> {
            &&& !exists|m: int|
                i < m < ks.len() && #[trigger] es[ks[m]].depth == es[ks[i]].depth && forall|l: int|
                    i < l < m ==> #[trigger] es[ks[l]].depth > es[ks[i]].depth
            &&& !(es[ks[i]].parent matches Some(p) && omitted_of(es, max, p) > 0)
        },
{
    let d = es[ks[i]].depth as nat;
    law_sibling_ahead_stops_at_shallower(es, ks, d, i + 1);
    assert((exists|m: int|
        i + 1 <= m < ks.len() && #[trigger] es[ks[m]].depth == d && forall|l: int|
            i + 1 <= l < m ==> #[trigger] es[ks[l]].depth > d) <==> (exists|m: int|
        i < m < ks.len() && #[trigger] es[ks[m]].depth == es[ks[i]].depth && forall|l: int|
            i < l < m ==> #[trigger] es[ks[l]].depth > es[ks[i]].depth));
}

proof fn lemma_first_rule_finds(theme: RuntimeTheme, is_dir: bool, m: Seq<bool>, k: int, r: int)
    requires
        0 <= k <= r < theme.rules@.len(),
        theme.rules@[r].target.spec_accepts(is_dir) && m[r],
        forall|l: int| k <= l < r ==> !(theme.rules@[l].target.spec_accepts(is_dir) && #[trigger] m[l]),
    ensures
        first_rule(theme, is_dir, m, k) == Some(r),
    decreases r - k,
{
    if k < r {
        lemma_first_rule_finds(theme, is_dir, m, k + 1, r);
    }
}

proof fn lemma_first_rule_none(theme: RuntimeTheme, is_dir: bool, m: Seq<bool>, k: int)
    requires
        0 <= k,
        forall|l: int| k <= l < theme.rules@.len() ==> !(theme.rules@[l].target.spec_accepts(is_dir) && #[trigger] m[l]),
    ensures
        first_rule(theme, is_dir, m, k) is None,
    decreases theme.rules@.len() - k,
{
    if k < theme.rules@.len() {
        lemma_first_rule_none(theme, is_dir, m, k + 1);
    }
}

/// The lowest-numbered rule that accepts the line's kind and whose glob
/// matched gives the line its colours, icon, speed and easing; later rules
/// that also match do not count.
pub proof fn law_first_matching_rule_wins(it: TreeItemView, theme: RuntimeTheme, m: Seq<bool>, r: int)
    requires
        !is_omission_name(it.name),
        0 <= r < theme.rules@.len(),
        theme.rules@[r].target.spec_accepts(it.is_dir) && m[r],
        forall|k: int| 0 <= k < r ==> !(theme.rules@[k].target.spec_accepts(it.is_dir) && #[trigger] m[k]),
    ensures
        styled(it, theme, m).cached_colors == theme.rules@[r].colors@,
        styled(it, theme, m).cached_icon == theme.rules@[r].icon@,
        styled(it, theme, m).cached_speed == theme.rules@[r].anim_speed,
        styled(it, theme, m).cached_easing == theme.rules@[r].anim_easing@,
{
    lemma_first_rule_finds(theme, it.is_dir, m, 0, r);
}

/// With no rule that accepts the line's kind and matched, a directory takes
/// the theme's directory style and a file its file style.
pub proof fn law_no_matching_rule_takes_defaults(it: TreeItemView, theme: RuntimeTheme, m: Seq<bool>)
    requires
        !is_omission_name(it.name),
        forall|k: int| 0 <= k < theme.rules@.len() ==> !(theme.rules@[k].target.spec_accepts(it.is_dir) && #[trigger] m[k]),
    ensures
        styled(it, theme, m).cached_colors == if it.is_dir { theme.dir_colors@ } else { theme.file_colors@ },
        styled(it, theme, m).cached_icon == if it.is_dir { theme.dir_icon@ } else { theme.file_icon@ },
        styled(it, theme, m).cached_speed == if it.is_dir { theme.dir_speed } else { theme.file_speed },
        styled(it, theme, m).cached_easing == if it.is_dir { theme.dir_easing@ } else { theme.file_easing@ },
{
    lemma_first_rule_none(theme, it.is_dir, m, 0);
}

/// A rule's target accepts what it names: any entry, only files, or only
/// directories.
pub proof fn law_targets_accept_their_kind(is_dir: bool)
    ensures
        Target::Any.spec_accepts(is_dir),
        Target::File.spec_accepts(is_dir) == !is_dir,
        Target::Dir.spec_accepts(is_dir) == is_dir,
{
}

/// The branch columns drawn for the levels above a line are four
/// characters per level, in order: four blanks under a level whose line
/// was the last child, a vertical bar and three blanks under one with more
/// to follow.
pub proof fn law_branch_columns_per_level(flags: Seq<bool>)
    ensures
        branch_columns(flags).len() == 4 * flags.len(),
        forall|k: int|
            0 <= k < flags.len() ==> branch_columns(flags).subrange(4 * k, 4 * k + 4) == if #[trigger] flags[k] {
                seq![' ', ' ', ' ', ' ']
            } else {
                seq!['│', ' ', ' ', ' ']
            },
    decreases flags.len(),
{
    reveal_strlit("    ");
    reveal_strlit("│   ");
    if flags.len() > 0 {
        let prev = flags.drop_last();
        law_branch_columns_per_level(prev);
        let c = branch_columns(flags);
        let n = flags.len() - 1;
        assert forall|k: int| 0 <= k < flags.len() implies c.subrange(4 * k, 4 * k + 4) == if #[trigger] flags[k] {
            seq![' ', ' ', ' ', ' ']
        } else {
            seq!['│', ' ', ' ', ' ']
        } by {
            if k < n {
                assert(prev[k] == flags[k]);
                assert(c.subrange(4 * k, 4 * k + 4) =~= branch_columns(prev).subrange(4 * k, 4 * k + 4));
            } else {
                if flags[k] {
                    assert(c.subrange(4 * k, 4 * k + 4) =~= seq![' ', ' ', ' ', ' ']);
                } else {
                    assert(c.subrange(4 * k, 4 * k + 4) =~= seq!['│', ' ', ' ', ' ']);
                }
            }
        }
    }
}

/// A line below the root is indented by its branch columns and then its
/// connector: a corner for the last child, a tee for one with siblings to
/// follow; the root is not indented.
pub proof fn law_indent_ends_with_connector(it: TreeItemView)
    ensures
        it.depth == 0 ==> indent_text(it).len() == 0,
        it.depth > 0 ==> {
            let n = it.ancestor_is_last.len() as int;
            &&& indent_text(it).len() == 4 * n + 4
            &&& indent_text(it).subrange(0, 4 * n) == branch_columns(it.ancestor_is_last)
            &&& indent_text(it).subrange(4 * n, 4 * n + 4) == if it.is_last {
                seq!['└', '─', '─', ' ']
            } else {
                seq!['├', '─', '─', ' ']
            }
        },
{
    reveal_strlit("└── ");
    reveal_strlit("├── ");
    law_branch_columns_per_level(it.ancestor_is_last);
    if it.depth > 0 {
        let c = branch_columns(it.ancestor_is_last);
        let t = indent_text(it);
        assert(t.subrange(0, c.len() as int) =~= c);
        if it.is_last {
            assert(t.subrange(c.len() as int, c.len() as int + 4) =~= seq!['└', '─', '─', ' ']);
        } else {
            assert(t.subrange(c.len() as int, c.len() as int + 4) =~= seq!['├', '─', '─', ' ']);
        }
    }
}

/// The omitted-files lines keep their own style whatever the theme.
pub proof fn law_omission_lines_unstyled(count: nat, d: nat, out: Seq<TreeItemView>, theme: RuntimeTheme, m: Seq<bool>)
    ensures
        styled(omitted_line(count, d, out), theme, m) == omitted_line(count, d, out),
{
    reveal_strlit("... ");
    reveal_strlit(" omitted");
    let name = omitted_name(count);
    assert(name.take(4) =~= "... "@);
    assert(name.skip(name.len() - 8) =~= " omitted"@);
}

/// Lays out a directory walk, or gives `None` when a line would be too
/// deep to draw or a parent position names no entry.
pub fn try_layout_tree(entries: &Vec<WalkEntry>, max_entries: Option<usize>) -> (items: Option<Vec<TreeItem>>)
    ensures
        items is Some <==> walk_fits(entries@, max_entries),
        items matches Some(v) ==> item_views(v@) == tree_layout(entries@, max_entries),
{
    let ghost es = entries@;
    let n = entries.len();
    let mut i: usize = 0;
    while i < n
        invariant
            i <= n == es.len(),
            es == entries@,
            forall|j: int| 0 <= j < i ==> ((#[trigger] es[j]).parent matches Some(p) ==> p < es.len()),
        decreases n - i,
    {
        match entries[i].parent {
            Some(p) => {
                if p >= n {
                    return None;
                }
            },
            None => {},
        }
        i = i + 1;
    }
    let (kept, omitted) = select_entries(entries, max_entries);
    proof {
        lemma_shown_upto(es, max_entries, es.len() as int);
    }
    let ghost ks = int_seq(kept@);
    let mut k: usize = 0;
    while k < kept.len()
        invariant
            k <= kept@.len(),
            es == entries@,
            ks == int_seq(kept@),
            ks == shown_indices(es, max_entries),
            forall|a: int| 0 <= a < ks.len() ==> 0 <= #[trigger] ks[a] < es.len() && shown(es, max_entries, ks[a]),
            omitted@.len() == es.len(),
            forall|p: int| 0 <= p < es.len() ==> #[trigger] omitted@[p] == omitted_of(es, max_entries, p as usize),
            forall|a: int| 0 <= a < k ==> (#[trigger] es[ks[a]]).depth <= MAX_DEPTH,
            forall|a: int| 0 <= a < k && es[ks[a]].is_dir && omitted_of(es, max_entries, ks[a] as usize) > 0
                ==> (#[trigger] es[ks[a]]).depth < MAX_DEPTH,
        decreases kept@.len() - k,
    {
        let idx = kept[k];
        assert(ks[k as int] == idx as int);
        let e = &entries[idx];
        if e.depth > MAX_DEPTH {
            return None;
        }
        if e.is_dir && omitted[idx] > 0 && e.depth >= MAX_DEPTH {
            return None;
        }
        k = k + 1;
    }
    proof {
        assert forall|j: int| 0 <= j < es.len() && shown(es, max_entries, j) implies (#[trigger] es[j]).depth <= MAX_DEPTH
            && (es[j].is_dir && omitted_of(es, max_entries, j as usize) > 0 ==> es[j].depth < MAX_DEPTH) by {
            lemma_shown_member(es, max_entries, es.len() as int, j);
            let a = choose|a: int| 0 <= a < ks.len() && #[trigger] ks[a] == j;
            assert(es[ks[a]] == es[j]);
        }
    }
    Some(layout_tree(entries, max_entries))
}

proof fn lemma_shown_member(es: Seq<WalkEntry>, max: Option<usize>, n: int, j: int)
    requires
        0 <= j < n <= es.len(),
        shown(es, max, j),
    ensures
        exists|a: int| 0 <= a < shown_upto(es, max, n).len() && #[trigger] shown_upto(es, max, n)[a] == j,
    decreases n,
{
    let r0 = shown_upto(es, max, n - 1);
    if j < n - 1 {
        lemma_shown_member(es, max, n - 1, j);
        let a = choose|a: int| 0 <= a < r0.len() && #[trigger] r0[a] == j;
        if shown(es, max, n - 1) {
            assert(shown_upto(es, max, n) == r0.push(n - 1));
            assert(shown_upto(es, max, n)[a] == j);
        } else {
            assert(shown_upto(es, max, n) == r0);
            assert(shown_upto(es, max, n)[a] == j);
        }
    } else {
        assert(shown_upto(es, max, n) == r0.push(n - 1));
        let r = shown_upto(es, max, n);
        assert(r[r0.len() as int] == j);
    }
}

} // verus!
