use vstd::prelude::*;
use vstd::relations::sorted_by;

use crate::order::{chars_le, lemma_chars_le_total, lemma_chars_le_transitive, name_le, name_order};
use crate::text::{chars_of, push_str, same_chars, string_of, trim, trimmed};

verus! {

/// The file a fresh configuration names as the active theme.
pub open spec fn default_theme_file() -> Seq<char> {
    "default.toml"@
}

/// The active theme's file name, given what the pointer file holds (none
/// when it could not be read): its text without surrounding whitespace, or
/// the default theme's file.
pub open spec fn active_name_of(contents: Option<Seq<char>>) -> Seq<char> {
    match contents {
        Some(s) => trim(s),
        None => default_theme_file(),
    }
}

/// Reads the active theme's file name out of the pointer file's contents.
pub fn theme_name_from(contents: Option<String>) -> (name: String)
    ensures
        name@ == active_name_of(
            match contents {
                Some(s) => Some(s@),
                None => None,
            },
        ),
{
    match contents {
        Some(s) => trimmed(s.as_str()),
        None => string_of("default.toml"),
    }
}

/// The line the theme list shows for a theme file: a star before the
/// active theme, three spaces before the others, then the file name.
pub open spec fn menu_line_of(name: Seq<char>, active: Seq<char>) -> Seq<char> {
    (if name == active {
        " ✦ "@
    } else {
        "   "@
    }) + name
}

/// The theme list's line for a theme file, and whether it is the active one.
pub fn menu_line(name: &str, active: &str) -> (r: (String, bool))
    ensures
        r.1 == (name@ == active@),
        r.0@ == menu_line_of(name@, active@),
{
    let is_active = same_chars(&chars_of(name), &chars_of(active));
    let mut line = if is_active {
        string_of(" ✦ ")
    } else {
        string_of("   ")
    };
    push_str(&mut line, name);
    (line, is_active)
}

/// Whether a file name has the extension `toml` as `Path::extension` reads
/// it: the part after the last dot, when something comes before that dot.
pub open spec fn is_theme_file(name: Seq<char>) -> bool {
    name.len() > 5 && name.skip(name.len() - 5) == ".toml"@
}

/// `picked` lists the theme files among `names` by position, each once, in
/// name order.
pub open spec fn theme_listing(names: Seq<Seq<char>>, picked: Seq<usize>) -> bool {
    &&& forall|k: int| 0 <= k < picked.len() ==> #[trigger] picked[k] < names.len() && is_theme_file(names[picked[k] as int])
    &&& forall|j: int| 0 <= j < names.len() && is_theme_file(#[trigger] names[j]) ==> picked.contains(j as usize)
    &&& forall|a: int, b: int| 0 <= a < b < picked.len() ==> picked[a] != picked[b]
    &&& sorted_by(picked.map_values(|k: usize| names[k as int]), name_order())
}

pub open spec fn names_view(v: Seq<String>) -> Seq<Seq<char>> {
    v.map_values(|s: String| s@)
}

fn has_theme_extension(cs: &Vec<char>) -> (b: bool)
    ensures
        b == is_theme_file(cs@),
{
    let n = cs.len();
    if n <= 5 {
        return false;
    }
    let ext = chars_of(".toml");
    proof {
        reveal_strlit(".toml");
    }
    let mut i: usize = 0;
    while i < 5
        invariant
            n == cs@.len() > 5,
            ext@ == ".toml"@,
            ext@.len() == 5,
            i <= 5,
            forall|j: int| 0 <= j < i ==> cs@[n - 5 + j] == ext@[j],
        decreases 5 - i,
    {
        if cs[n - 5 + i] != ext[i] {
            assert(cs@.skip(n - 5)[i as int] != ".toml"@[i as int]);
            return false;
        }
        i = i + 1;
    }
    assert(cs@.skip(n - 5) =~= ".toml"@);
    true
}

proof fn lemma_insert_keeps(s: Seq<usize>, p: int, x: usize, j: usize)
    requires
        0 <= p <= s.len(),
        s.contains(j),
    ensures
        s.insert(p, x).contains(j),
{
    let k = choose|k: int| 0 <= k < s.len() && s[k] == j;
    if k < p {
        assert(s.insert(p, x)[k] == j);
    } else {
        assert(s.insert(p, x)[k + 1] == j);
    }
}

/// The theme files among the names of a directory's entries, by position,
/// in name order.
pub fn theme_files(names: &Vec<String>) -> (picked: Vec<usize>)
    ensures
        theme_listing(names_view(names@), picked@),
{
    let ghost nv = names_view(names@);
    let n = names.len();
    let mut cs: Vec<Vec<char>> = Vec::new();
    let mut z: usize = 0;
    while z < n
        invariant
            z <= n == names@.len() == nv.len(),
            nv == names_view(names@),
            cs@.len() == z,
            forall|k: int| 0 <= k < z ==> (#[trigger] cs@[k])@ == nv[k],
        decreases n - z,
    {
        cs.push(chars_of(names[z].as_str()));
        z = z + 1;
    }
    let mut out: Vec<usize> = Vec::new();
    let mut i: usize = 0;
    while i < n
        invariant
            i <= n == nv.len() == cs@.len(),
            forall|k: int| 0 <= k < n ==> (#[trigger] cs@[k])@ == nv[k],
            forall|k: int| 0 <= k < out@.len() ==> #[trigger] out@[k] < i && is_theme_file(nv[out@[k] as int]),
            forall|j: int| 0 <= j < i && is_theme_file(#[trigger] nv[j]) ==> out@.contains(j as usize),
            forall|a: int, b: int| 0 <= a < b < out@.len() ==> out@[a] != out@[b],
            forall|a: int, b: int| 0 <= a < b < out@.len() ==> chars_le(nv[out@[a] as int], nv[out@[b] as int]),
        decreases n - i,
    {
        if has_theme_extension(&cs[i]) {
            let mut p: usize = 0;
            while p < out.len() && !name_le(&cs[i], &cs[out[p]])
                invariant
                    p <= out@.len(),
                    i < n == nv.len() == cs@.len(),
                    forall|k: int| 0 <= k < n ==> (#[trigger] cs@[k])@ == nv[k],
                    forall|k: int| 0 <= k < out@.len() ==> #[trigger] out@[k] < i,
                    forall|a: int| 0 <= a < p ==> !chars_le(nv[i as int], #[trigger] nv[out@[a] as int]),
                decreases out@.len() - p,
            {
                p = p + 1;
            }
            let ghost before = out@;
            let ghost x = nv[i as int];
            out.insert(p, i);
            proof {
                assert(out@ == before.insert(p as int, i));
                assert forall|a: int, b: int| 0 <= a < b < out@.len() implies chars_le(
                    nv[out@[a] as int],
                    nv[out@[b] as int],
                ) by {
                    if b < p {
                        assert(out@[a] == before[a] && out@[b] == before[b]);
                    } else if b == p {
                        assert(out@[a] == before[a]);
                        assert(!chars_le(x, nv[before[a] as int]));
                        lemma_chars_le_total(x, nv[before[a] as int]);
                    } else if a == p {
                        assert(out@[b] == before[b - 1]);
                        assert(chars_le(x, nv[before[p as int] as int]));
                        if b - 1 > p {
                            lemma_chars_le_transitive(x, nv[before[p as int] as int], nv[before[b - 1] as int]);
                        }
                    } else if a < p {
                        assert(out@[a] == before[a] && out@[b] == before[b - 1]);
                        assert(!chars_le(x, nv[before[a] as int]));
                        lemma_chars_le_total(x, nv[before[a] as int]);
                        assert(chars_le(x, nv[before[p as int] as int]));
                        lemma_chars_le_transitive(nv[before[a] as int], x, nv[before[p as int] as int]);
                        if b - 1 > p {
                            lemma_chars_le_transitive(
                                nv[before[a] as int],
                                nv[before[p as int] as int],
                                nv[before[b - 1] as int],
                            );
                        }
                    } else {
                        assert(out@[a] == before[a - 1] && out@[b] == before[b - 1]);
                    }
                }
                assert forall|a: int, b: int| 0 <= a < b < out@.len() implies out@[a] != out@[b] by {
                    if a < p && b > p {
                        assert(out@[a] == before[a] && out@[b] == before[b - 1]);
                    } else if b < p {
                        assert(out@[a] == before[a] && out@[b] == before[b]);
                    } else if a > p {
                        assert(out@[a] == before[a - 1] && out@[b] == before[b - 1]);
                    } else if a == p {
                        assert(out@[b] == before[b - 1]);
                    } else {
                        assert(out@[a] == before[a]);
                    }
                }
                assert forall|k: int| 0 <= k < out@.len() implies #[trigger] out@[k] < i + 1 && is_theme_file(
                    nv[out@[k] as int],
                ) by {
                    if k < p {
                        assert(out@[k] == before[k]);
                    } else if k > p {
                        assert(out@[k] == before[k - 1]);
                    }
                }
                assert forall|j: int| 0 <= j < i + 1 && is_theme_file(#[trigger] nv[j]) implies out@.contains(
                    j as usize,
                ) by {
                    if j < i {
                        lemma_insert_keeps(before, p as int, i, j as usize);
                    } else {
                        assert(out@[p as int] == i);
                    }
                }
            }
        } else {
            assert(!is_theme_file(nv[i as int]));
        }
        i = i + 1;
    }
    proof {
        let sorted = out@.map_values(|k: usize| nv[k as int]);
        assert forall|a: int, b: int| 0 <= a < b < sorted.len() implies (#[trigger] name_order()(
            sorted[a],
            sorted[b],
        )) by {
            assert(sorted[a] == nv[out@[a] as int]);
            assert(sorted[b] == nv[out@[b] as int]);
        }
    }
    out
}

} // verus!
