use vstd::prelude::*;

verus! {

/// The characters of `s`, in order.
pub fn chars_of(s: &str) -> (v: Vec<char>)
    ensures
        v@ == s@,
{
    let mut v: Vec<char> = Vec::new();
    for c in it: s.chars()
        invariant
            v@ == it.seq().take(it.index() as int),
            it.seq() == s@,
    {
        v.push(c);
    }
    v
}

/// Appends one character to a string (`String::push`).
#[verifier::external_body]
pub fn push_char(s: &mut String, c: char)
    ensures
        final(s)@ == old(s)@.push(c),
{
    s.push(c);
}

/// Appends a string slice to a string (`String::push_str`).
#[verifier::external_body]
pub fn push_str(s: &mut String, t: &str)
    ensures
        final(s)@ == old(s)@ + t@,
{
    s.push_str(t);
}

/// A string holding exactly the given characters.
pub fn string_from_chars(cs: &Vec<char>) -> (s: String)
    ensures
        s@ == cs@,
{
    let mut s = String::new();
    let mut i: usize = 0;
    while i < cs.len()
        invariant
            i <= cs.len(),
            s@ == cs@.take(i as int),
        decreases cs.len() - i,
    {
        push_char(&mut s, cs[i]);
        assert(cs@.take(i + 1) == cs@.take(i as int).push(cs@[i as int]));
        i = i + 1;
    }
    assert(cs@.take(cs.len() as int) == cs@);
    s
}

/// Whether two character vectors hold the same characters.
pub fn same_chars(a: &Vec<char>, b: &Vec<char>) -> (r: bool)
    ensures
        r == (a@ == b@),
{
    if a.len() != b.len() {
        return false;
    }
    let mut i: usize = 0;
    while i < a.len()
        invariant
            i <= a@.len() == b@.len(),
            forall|j: int| 0 <= j < i ==> a@[j] == b@[j],
        decreases a@.len() - i,
    {
        if a[i] != b[i] {
            return false;
        }
        i = i + 1;
    }
    assert(a@ =~= b@);
    true
}

/// A copy of a string, with the same characters.
pub fn copy_string(s: &String) -> (r: String)
    ensures
        r@ == s@,
{
    s.clone()
}

/// A string holding the characters of a literal.
pub fn string_of(s: &str) -> (r: String)
    ensures
        r@ == s@,
{
    s.to_owned()
}

/// Whether `c` has the Unicode `White_Space` property, the set of characters
/// that `str::trim` and `char::is_whitespace` treat as whitespace.
pub open spec fn is_white_space(c: char) -> bool {
    let u = c as u32;
    ||| 0x09 <= u <= 0x0D
    ||| u == 0x20
    ||| u == 0x85
    ||| u == 0xA0
    ||| u == 0x1680
    ||| 0x2000 <= u <= 0x200A
    ||| u == 0x2028
    ||| u == 0x2029
    ||| u == 0x202F
    ||| u == 0x205F
    ||| u == 0x3000
}

pub fn white_space(c: char) -> (b: bool)
    ensures
        b == is_white_space(c),
{
    let u = c as u32;
    (0x09 <= u && u <= 0x0D) || u == 0x20 || u == 0x85 || u == 0xA0 || u == 0x1680 || (0x2000
        <= u && u <= 0x200A) || u == 0x2028 || u == 0x2029 || u == 0x202F || u == 0x205F || u
        == 0x3000
}

/// How many characters at the start of `s` satisfy `p`.
pub open spec fn lead_while(s: Seq<char>, p: spec_fn(char) -> bool) -> nat
    decreases s.len(),
{
    if s.len() > 0 && p(s[0]) {
        1 + lead_while(s.drop_first(), p)
    } else {
        0
    }
}

/// How many characters at the end of `s` satisfy `p`.
pub open spec fn trail_while(s: Seq<char>, p: spec_fn(char) -> bool) -> nat
    decreases s.len(),
{
    if s.len() > 0 && p(s.last()) {
        1 + trail_while(s.drop_last(), p)
    } else {
        0
    }
}

pub open spec fn white_space_fn() -> spec_fn(char) -> bool {
    |c: char| is_white_space(c)
}

/// `s` with its leading and trailing whitespace removed (`str::trim`).
pub open spec fn trim(s: Seq<char>) -> Seq<char> {
    let rest = s.skip(lead_while(s, white_space_fn()) as int);
    rest.take(rest.len() - trail_while(rest, white_space_fn()))
}

pub proof fn lemma_lead_while(s: Seq<char>, p: spec_fn(char) -> bool)
    ensures
        lead_while(s, p) <= s.len(),
        forall|k: int| 0 <= k < lead_while(s, p) ==> #[trigger] p(s[k]),
        lead_while(s, p) < s.len() ==> !p(s[lead_while(s, p) as int]),
    decreases s.len(),
{
    if s.len() > 0 && p(s[0]) {
        lemma_lead_while(s.drop_first(), p);
        assert forall|k: int| 0 <= k < lead_while(s, p) implies #[trigger] p(s[k]) by {
            if k > 0 {
                assert(s[k] == s.drop_first()[k - 1]);
            }
        }
    }
}

pub proof fn lemma_trail_while(s: Seq<char>, p: spec_fn(char) -> bool)
    ensures
        trail_while(s, p) <= s.len(),
        forall|k: int| s.len() - trail_while(s, p) <= k < s.len() ==> #[trigger] p(s[k]),
        trail_while(s, p) < s.len() ==> !p(s[s.len() - trail_while(s, p) - 1]),
    decreases s.len(),
{
    if s.len() > 0 && p(s.last()) {
        lemma_trail_while(s.drop_last(), p);
        assert forall|k: int| s.len() - trail_while(s, p) <= k < s.len() implies #[trigger] p(
            s[k],
        ) by {
            if k < s.len() - 1 {
                assert(s[k] == s.drop_last()[k]);
            }
        }
    }
}

/// `lead_while` is determined by the first character that fails `p`.
pub proof fn lemma_lead_while_at(s: Seq<char>, p: spec_fn(char) -> bool, n: int)
    requires
        0 <= n <= s.len(),
        forall|k: int| 0 <= k < n ==> #[trigger] p(s[k]),
        n < s.len() ==> !p(s[n]),
    ensures
        lead_while(s, p) == n,
    decreases s.len(),
{
    if n > 0 {
        assert(p(s[0]));
        assert forall|k: int| 0 <= k < n - 1 implies #[trigger] p(s.drop_first()[k]) by {
            assert(s.drop_first()[k] == s[k + 1]);
            assert(p(s[k + 1]));
        }
        lemma_lead_while_at(s.drop_first(), p, n - 1);
    }
}

/// `trail_while` is determined by the last character that fails `p`.
pub proof fn lemma_trail_while_at(s: Seq<char>, p: spec_fn(char) -> bool, n: int)
    requires
        0 <= n <= s.len(),
        forall|k: int| s.len() - n <= k < s.len() ==> #[trigger] p(s[k]),
        n < s.len() ==> !p(s[s.len() - n - 1]),
    ensures
        trail_while(s, p) == n,
    decreases s.len(),
{
    if n > 0 {
        assert(p(s[s.len() - 1]));
        assert forall|k: int| s.len() - 1 - (n - 1) <= k < s.len() - 1 implies #[trigger] p(
            s.drop_last()[k],
        ) by {
            assert(s.drop_last()[k] == s[k]);
        }
        lemma_trail_while_at(s.drop_last(), p, n - 1);
    }
}

/// The bounds `(lo, hi)` of `cs` with surrounding whitespace removed, so that
/// `cs[lo..hi]` is `trim(cs)`.
pub fn trim_bounds(cs: &Vec<char>) -> (r: (usize, usize))
    ensures
        r.0 <= r.1 <= cs.len(),
        cs@.subrange(r.0 as int, r.1 as int) == trim(cs@),
{
    let n = cs.len();
    let mut lo: usize = 0;
    while lo < n && white_space(cs[lo])
        invariant
            lo <= n == cs.len(),
            forall|k: int| 0 <= k < lo ==> #[trigger] is_white_space(cs@[k]),
        decreases n - lo,
    {
        lo = lo + 1;
    }
    let mut hi: usize = n;
    while hi > lo && white_space(cs[hi - 1])
        invariant
            lo <= hi <= n == cs.len(),
            forall|k: int| hi <= k < n ==> #[trigger] is_white_space(cs@[k]),
        decreases hi,
    {
        hi = hi - 1;
    }
    proof {
        let ws = white_space_fn();
        assert forall|k: int| 0 <= k < lo implies #[trigger] ws(cs@[k]) by {
            assert(is_white_space(cs@[k]));
        }
        lemma_lead_while_at(cs@, ws, lo as int);
        let rest = cs@.skip(lo as int);
        assert forall|k: int| rest.len() - (n - hi) <= k < rest.len() implies #[trigger] ws(
            rest[k],
        ) by {
            assert(rest[k] == cs@[lo + k]);
            assert(is_white_space(cs@[lo + k]));
        }
        if hi > lo {
            assert(rest[rest.len() - (n - hi) - 1] == cs@[hi - 1]);
        }
        lemma_trail_while_at(rest, ws, (n - hi) as int);
        assert(rest.take(rest.len() - (n - hi)) == cs@.subrange(lo as int, hi as int));
    }
    (lo, hi)
}

/// A string of the characters `cs[lo..hi]`.
pub fn string_of_range(cs: &Vec<char>, lo: usize, hi: usize) -> (s: String)
    requires
        lo <= hi <= cs.len(),
    ensures
        s@ == cs@.subrange(lo as int, hi as int),
{
    let mut part: Vec<char> = Vec::new();
    let mut k = lo;
    while k < hi
        invariant
            lo <= k <= hi <= cs.len(),
            part@ == cs@.subrange(lo as int, k as int),
        decreases hi - k,
    {
        part.push(cs[k]);
        k = k + 1;
    }
    string_from_chars(&part)
}

/// `s` with its leading and trailing whitespace removed (`str::trim`).
pub fn trimmed(s: &str) -> (r: String)
    ensures
        r@ == trim(s@),
{
    let cs = chars_of(s);
    let (lo, hi) = trim_bounds(&cs);
    string_of_range(&cs, lo, hi)
}

/// Whether every character of `s` is ASCII.
pub open spec fn all_ascii(s: Seq<char>) -> bool {
    forall|i: int| 0 <= i < s.len() ==> (#[trigger] s[i] as int) < 128
}

/// The lower-case code of an ASCII code: `A`..`Z` become `a`..`z`.
pub open spec fn lower_code(c: int) -> int {
    if 65 <= c <= 90 {
        c + 32
    } else {
        c
    }
}

/// `r` is the ASCII text `s` with its capital letters made small.
pub open spec fn ascii_lowered(r: Seq<char>, s: Seq<char>) -> bool {
    &&& r.len() == s.len()
    &&& forall|i: int| 0 <= i < s.len() ==> (#[trigger] r[i] as int) == lower_code(s[i] as int)
}

/// The decimal digits of `n`, most significant first, as `Display` writes
/// an unsigned integer.
pub open spec fn decimal(n: nat) -> Seq<char>
    decreases n,
{
    if n < 10 {
        seq![digit_char(n)]
    } else {
        decimal(n / 10).push(digit_char(n % 10))
    }
}

pub open spec fn digit_char(d: nat) -> char {
    if d == 0 {
        '0'
    } else if d == 1 {
        '1'
    } else if d == 2 {
        '2'
    } else if d == 3 {
        '3'
    } else if d == 4 {
        '4'
    } else if d == 5 {
        '5'
    } else if d == 6 {
        '6'
    } else if d == 7 {
        '7'
    } else if d == 8 {
        '8'
    } else {
        '9'
    }
}

fn digit(d: usize) -> (c: char)
    requires
        d < 10,
    ensures
        c == digit_char(d as nat),
{
    if d == 0 {
        '0'
    } else if d == 1 {
        '1'
    } else if d == 2 {
        '2'
    } else if d == 3 {
        '3'
    } else if d == 4 {
        '4'
    } else if d == 5 {
        '5'
    } else if d == 6 {
        '6'
    } else if d == 7 {
        '7'
    } else if d == 8 {
        '8'
    } else {
        '9'
    }
}

/// Appends the decimal digits of `n` to `s`.
pub fn push_decimal(s: &mut String, n: usize)
    ensures
        final(s)@ == old(s)@ + decimal(n as nat),
    decreases n,
{
    if n < 10 {
        push_char(s, digit(n));
    } else {
        push_decimal(s, n / 10);
        push_char(s, digit(n % 10));
    }
}

/// Trimming twice is trimming once.
pub proof fn law_trim_idempotent(s: Seq<char>)
    ensures
        trim(trim(s)) == trim(s),
{
    let ws = white_space_fn();
    let a = lead_while(s, ws);
    lemma_lead_while(s, ws);
    let rest = s.skip(a as int);
    lemma_trail_while(rest, ws);
    let z = trail_while(rest, ws);
    let t = trim(s);
    assert(t == rest.take(rest.len() - z));
    if t.len() > 0 {
        assert(t[0] == s[a as int]);
        assert(t[t.len() - 1] == rest[rest.len() - z - 1]);
    }
    lemma_lead_while_at(t, ws, 0);
    assert(t.skip(0) == t);
    lemma_trail_while_at(t, ws, 0);
    assert(t.take(t.len() as int) == t);
}

} // verus!
