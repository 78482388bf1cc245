use vstd::prelude::*;
use vstd::string::StrSliceExecFns;
use vstd::utf8::{encode_utf8, is_char_boundary};

use crate::text::{law_trim_idempotent, chars_of, lead_while, string_of_range, trim, trim_bounds, lemma_lead_while_at};

verus! {

/// A colour of the palette a theme can name: an RGB triple, or the
/// terminal's plain white that stands for anything unreadable.
#[derive(Clone, Copy, Debug, PartialEq, Eq, Structural)]
pub enum ThemeColor {
    Rgb(u8, u8, u8),
    White,
}

pub open spec fn is_hash(c: char) -> bool {
    c == '#'
}

pub open spec fn hash_fn() -> spec_fn(char) -> bool {
    |c: char| is_hash(c)
}

/// What is left of a colour entry once surrounding whitespace and then any
/// number of leading `#` are removed.
pub open spec fn hex_body(hex: Seq<char>) -> Seq<char> {
    let t = trim(hex);
    t.skip(lead_while(t, hash_fn()) as int)
}

/// The value of one hexadecimal digit byte, either case.
pub open spec fn hex_digit(b: u8) -> Option<nat> {
    if 0x30 <= b <= 0x39 {
        Some((b - 0x30) as nat)
    } else if 0x61 <= b <= 0x66 {
        Some((b - 0x61 + 10) as nat)
    } else if 0x41 <= b <= 0x46 {
        Some((b - 0x41 + 10) as nat)
    } else {
        None
    }
}

/// The value of a run of hexadecimal digits, if every byte is one.
pub open spec fn digits_value(ds: Seq<u8>) -> Option<nat>
    decreases ds.len(),
{
    if ds.len() == 0 {
        Some(0)
    } else {
        match (digits_value(ds.drop_last()), hex_digit(ds.last())) {
            (Some(v), Some(d)) => Some(v * 16 + d),
            _ => None,
        }
    }
}

/// Unsigned base-16 parsing of a byte string: an optional `+` followed by
/// one or more hexadecimal digits (`from_str_radix(_, 16)` on an unsigned
/// type, for digit strings short enough not to overflow).
pub open spec fn radix16(bs: Seq<u8>) -> Option<nat> {
    let ds = if bs.len() > 0 && bs[0] == 0x2B {
        bs.drop_first()
    } else {
        bs
    };
    if ds.len() == 0 {
        None
    } else {
        digits_value(ds)
    }
}

/// One colour channel: the two bytes at `i`, read as base 16, or 255 when
/// they are not a number.
pub open spec fn channel(b: Seq<u8>, i: int) -> u8 {
    match radix16(b.subrange(i, i + 2)) {
        Some(v) => v as u8,
        None => 255,
    }
}

/// The colour that a `#RRGGBB` entry names: the body must be six bytes long,
/// each byte pair giving a channel; anything else is white.
pub open spec fn hex_color(hex: Seq<char>) -> ThemeColor {
    let b = encode_utf8(hex_body(hex));
    if b.len() == 6 {
        ThemeColor::Rgb(channel(b, 0), channel(b, 2), channel(b, 4))
    } else {
        ThemeColor::White
    }
}

/// A six-byte body is cut into byte pairs; this holds when the cuts fall
/// between characters, as slicing a `str` demands.
pub open spec fn hex_cuts_ok(hex: Seq<char>) -> bool {
    let b = encode_utf8(hex_body(hex));
    b.len() == 6 ==> is_char_boundary(b, 2) && is_char_boundary(b, 4)
}

/// Whether the entry is a well-formed colour: a six-byte body that base 16
/// accepts as a whole.
pub open spec fn valid_hex(hex: Seq<char>) -> bool {
    let b = encode_utf8(hex_body(hex));
    b.len() == 6 && radix16(b) is Some
}

pub proof fn lemma_digits_value_some(ds: Seq<u8>)
    ensures
        digits_value(ds) is Some <==> forall|k: int| 0 <= k < ds.len() ==> #[trigger] hex_digit(
            ds[k],
        ) is Some,
        digits_value(ds) matches Some(v) ==> v < pow16(ds.len()),
    decreases ds.len(),
{
    if ds.len() > 0 {
        lemma_digits_value_some(ds.drop_last());
        if digits_value(ds.drop_last()) is Some && hex_digit(ds.last()) is Some {
            assert forall|k: int| 0 <= k < ds.len() implies #[trigger] hex_digit(ds[k]) is Some by {
                if k < ds.len() - 1 {
                    assert(ds[k] == ds.drop_last()[k]);
                }
            }
            let v = digits_value(ds.drop_last())->0;
            let d = hex_digit(ds.last())->0;
            assert(v * 16 + d < pow16(ds.len())) by (nonlinear_arith)
                requires
                    v < pow16((ds.len() - 1) as nat),
                    d < 16,
                    pow16(ds.len()) == 16 * pow16((ds.len() - 1) as nat),
            ;
        } else if digits_value(ds.drop_last()) is None {
            let k = choose|k: int| 0 <= k < ds.len() - 1 && !(#[trigger] hex_digit(
                ds.drop_last()[k],
            ) is Some);
            assert(ds.drop_last()[k] == ds[k]);
        }
    }
}

pub open spec fn pow16(n: nat) -> nat
    decreases n,
{
    if n == 0 {
        1
    } else {
        16 * pow16((n - 1) as nat)
    }
}

fn hex_digit_of(b: u8) -> (r: Option<u8>)
    ensures
        r matches Some(d) ==> hex_digit(b) == Some(d as nat),
        r is None ==> hex_digit(b) is None,
{
    if 0x30 <= b && b <= 0x39 {
        Some(b - 0x30)
    } else if 0x61 <= b && b <= 0x66 {
        Some(b - 0x61 + 10)
    } else if 0x41 <= b && b <= 0x46 {
        Some(b - 0x41 + 10)
    } else {
        None
    }
}

/// Reads the channel at byte `i` of `b`.
fn channel_at(b: &[u8], i: usize) -> (r: u8)
    requires
        i + 2 <= b@.len(),
    ensures
        r == channel(b@, i as int),
{
    let ghost s = b@.subrange(i as int, i + 2);
    assert(s[0] == b@[i as int] && s[1] == b@[i + 1]);
    assert(s.drop_first().drop_last().len() == 0);
    assert(s.drop_last().drop_last().len() == 0);
    reveal_with_fuel(digits_value, 3);
    if b[i] == 0x2B {
        assert(s.drop_first().last() == s[1]);
        match hex_digit_of(b[i + 1]) {
            Some(d) => d,
            None => 255,
        }
    } else {
        assert(s.last() == s[1] && s.drop_last().last() == s[0]);
        match (hex_digit_of(b[i]), hex_digit_of(b[i + 1])) {
            (Some(x), Some(y)) => {
                assert(x < 16 && y < 16);
                x * 16 + y
            },
            _ => 255,
        }
    }
}

/// The body of a colour entry, as a slice of it.
fn hex_body_slice<'a>(hex: &'a str) -> (r: &'a str)
    ensures
        r@ == hex_body(hex@),
{
    let cs = chars_of(hex);
    let (lo, hi) = trim_bounds(&cs);
    let mut k = lo;
    while k < hi && cs[k] == '#'
        invariant
            lo <= k <= hi <= cs.len(),
            forall|j: int| lo <= j < k ==> #[trigger] cs@[j] == '#',
        decreases hi - k,
    {
        k = k + 1;
    }
    proof {
        let t = cs@.subrange(lo as int, hi as int);
        assert forall|j: int| 0 <= j < k - lo implies #[trigger] hash_fn()(t[j]) by {
            assert(t[j] == cs@[lo + j]);
        }
        if k < hi {
            assert(t[k - lo] == cs@[k as int]);
        }
        lemma_lead_while_at(t, hash_fn(), k - lo);
        assert(t.skip(k - lo) == cs@.subrange(k as int, hi as int));
    }
    hex.substring_char(k, hi)
}

/// Whether parsing `hex` as a colour stays within character boundaries.
pub fn hex_cuts_hold(hex: &str) -> (r: bool)
    ensures
        r == hex_cuts_ok(hex@),
{
    let body = hex_body_slice(hex);
    body.as_bytes().len() != 6 || (body.is_char_boundary(2) && body.is_char_boundary(4))
}

/// Reads a `#RRGGBB` colour; a body of any other length is white, and a
/// channel that is not a base-16 number is 255.
pub fn parse_hex(hex: &str) -> (c: ThemeColor)
    requires
        hex_cuts_ok(hex@),
    ensures
        c == hex_color(hex@),
{
    let body = hex_body_slice(hex);
    let b = body.as_bytes();
    if b.len() == 6 {
        ThemeColor::Rgb(channel_at(b, 0), channel_at(b, 2), channel_at(b, 4))
    } else {
        ThemeColor::White
    }
}

/// Whether every byte of `b` from `start` on is a hexadecimal digit.
fn all_hex_digits(b: &[u8], start: usize) -> (r: bool)
    requires
        start <= b@.len(),
    ensures
        r == forall|j: int| start <= j < b@.len() ==> #[trigger] hex_digit(b@[j]) is Some,
{
    let mut k = start;
    while k < b.len()
        invariant
            start <= k <= b@.len(),
            forall|j: int| start <= j < k ==> #[trigger] hex_digit(b@[j]) is Some,
        decreases b@.len() - k,
    {
        if hex_digit_of(b[k]).is_none() {
            return false;
        }
        k = k + 1;
    }
    true
}

proof fn lemma_radix16_digits(b: Seq<u8>, start: int)
    requires
        b.len() == 6,
        start == (if b[0] == 0x2B { 1int } else { 0int }),
    ensures
        radix16(b) is Some <==> forall|j: int| start <= j < b.len() ==> #[trigger] hex_digit(b[j]) is Some,
{
    let ds = if b.len() > 0 && b[0] == 0x2B { b.drop_first() } else { b };
    assert(ds == b.skip(start));
    lemma_digits_value_some(ds);
    if radix16(b) is Some {
        assert forall|j: int| start <= j < b.len() implies #[trigger] hex_digit(b[j]) is Some by {
            assert(b[j] == ds[j - start]);
        }
    }
    if forall|j: int| start <= j < b.len() ==> #[trigger] hex_digit(b[j]) is Some {
        assert forall|j: int| 0 <= j < ds.len() implies #[trigger] hex_digit(ds[j]) is Some by {
            assert(ds[j] == b[start + j]);
        }
    }
}

/// Whether `hex` is a well-formed `#RRGGBB` colour.
pub fn is_valid_hex(hex: &str) -> (r: bool)
    ensures
        r == valid_hex(hex@),
{
    let body = hex_body_slice(hex);
    let b = body.as_bytes();
    if b.len() != 6 {
        return false;
    }
    let start: usize = if b[0] == 0x2B { 1 } else { 0 };
    proof {
        lemma_radix16_digits(b@, start as int);
    }
    all_hex_digits(b, start)
}

/// The pieces of `s` between occurrences of `sep`, as `str::split` with a
/// character yields them: always at least one, possibly empty.
pub open spec fn split_on(s: Seq<char>, sep: char) -> Seq<Seq<char>>
    decreases s.len(),
{
    if s.len() == 0 {
        seq![Seq::empty()]
    } else {
        let r = split_on(s.drop_last(), sep);
        if s.last() == sep {
            r.push(Seq::empty())
        } else {
            r.update(r.len() - 1, r.last().push(s.last()))
        }
    }
}

pub proof fn lemma_split_on_len(s: Seq<char>, sep: char)
    ensures
        split_on(s, sep).len() >= 1,
    decreases s.len(),
{
    if s.len() > 0 {
        lemma_split_on_len(s.drop_last(), sep);
    }
}

/// The colours named by a list of comma-separated pieces: each piece is
/// trimmed, blank pieces are skipped, the others read with `hex_color`.
pub open spec fn piece_colors(pieces: Seq<Seq<char>>) -> Seq<ThemeColor>
    decreases pieces.len(),
{
    if pieces.len() == 0 {
        seq![]
    } else {
        let r = piece_colors(pieces.drop_last());
        let t = trim(pieces.last());
        if t.len() == 0 {
            r
        } else {
            r.push(hex_color(t))
        }
    }
}

/// The gradient a comma-separated colour list names; a list that names no
/// colour at all is plain white.
pub open spec fn gradient(list: Seq<char>) -> Seq<ThemeColor> {
    let c = piece_colors(split_on(list, ','));
    if c.len() == 0 {
        seq![ThemeColor::White]
    } else {
        c
    }
}

/// Every piece of the list can be read without cutting a character.
pub open spec fn gradient_cuts_ok(list: Seq<char>) -> bool {
    let pieces = split_on(list, ',');
    forall|k: int| 0 <= k < pieces.len() ==> #[trigger] hex_cuts_ok(trim(pieces[k]))
}

pub open spec fn views_of(v: Seq<Vec<char>>) -> Seq<Seq<char>> {
    v.map_values(|x: Vec<char>| x@)
}

/// Cuts `cs` at every `sep`.
fn split_chars(cs: &Vec<char>, sep: char) -> (pieces: Vec<Vec<char>>)
    ensures
        views_of(pieces@) == split_on(cs@, sep),
{
    let mut pieces: Vec<Vec<char>> = Vec::new();
    let mut cur: Vec<char> = Vec::new();
    let mut i: usize = 0;
    while i < cs.len()
        invariant
            i <= cs.len(),
            views_of(pieces@).push(cur@) == split_on(cs@.take(i as int), sep),
        decreases cs.len() - i,
    {
        let c = cs[i];
        let ghost before = split_on(cs@.take(i as int), sep);
        proof {
            lemma_split_on_len(cs@.take(i as int), sep);
            assert(cs@.take(i + 1).drop_last() == cs@.take(i as int));
            assert(cs@.take(i + 1).last() == c);
        }
        if c == sep {
            pieces.push(cur);
            cur = Vec::new();
            assert(views_of(pieces@) == before);
        } else {
            cur.push(c);
            assert(views_of(pieces@).push(cur@) == before.update(before.len() - 1, before.last().push(c)));
        }
        i = i + 1;
    }
    assert(cs@.take(cs.len() as int) == cs@);
    pieces.push(cur);
    pieces
}

/// Whether every piece of a colour list can be read without cutting a
/// character.
pub fn gradient_cuts_hold(list: &str) -> (r: bool)
    ensures
        r == gradient_cuts_ok(list@),
{
    let cs = chars_of(list);
    let pieces = split_chars(&cs, ',');
    let mut k: usize = 0;
    while k < pieces.len()
        invariant
            k <= pieces.len(),
            views_of(pieces@) == split_on(list@, ','),
            forall|j: int| 0 <= j < k ==> #[trigger] hex_cuts_ok(trim(split_on(list@, ',')[j])),
        decreases pieces.len() - k,
    {
        let (lo, hi) = trim_bounds(&pieces[k]);
        let t = string_of_range(&pieces[k], lo, hi);
        assert(views_of(pieces@)[k as int] == pieces@[k as int]@);
        if !hex_cuts_hold(t.as_str()) {
            return false;
        }
        k = k + 1;
    }
    true
}

/// Reads a comma-separated list of `#RRGGBB` colours into a gradient.
pub fn parse_gradient(hex_list: &str) -> (colors: Vec<ThemeColor>)
    requires
        gradient_cuts_ok(hex_list@),
    ensures
        colors@ == gradient(hex_list@),
{
    let cs = chars_of(hex_list);
    let pieces = split_chars(&cs, ',');
    let ghost all = split_on(hex_list@, ',');
    let mut colors: Vec<ThemeColor> = Vec::new();
    let mut k: usize = 0;
    while k < pieces.len()
        invariant
            k <= pieces.len(),
            views_of(pieces@) == all,
            all == split_on(hex_list@, ','),
            gradient_cuts_ok(hex_list@),
            colors@ == piece_colors(all.take(k as int)),
        decreases pieces.len() - k,
    {
        let (lo, hi) = trim_bounds(&pieces[k]);
        proof {
            assert(views_of(pieces@)[k as int] == pieces@[k as int]@);
            assert(all.take(k + 1).drop_last() == all.take(k as int));
            assert(all.take(k + 1).last() == all[k as int]);
            assert(hex_cuts_ok(trim(all[k as int])));
        }
        if lo < hi {
            let t = string_of_range(&pieces[k], lo, hi);
            let c = parse_hex(t.as_str());
            colors.push(c);
        }
        k = k + 1;
    }
    assert(all.take(pieces.len() as int) == all);
    if colors.len() == 0 {
        let mut white = Vec::new();
        white.push(ThemeColor::White);
        white
    } else {
        colors
    }
}

/// How many pieces of a colour list are not well-formed colours (blank
/// pieces are not counted).
pub open spec fn invalid_pieces(pieces: Seq<Seq<char>>) -> nat
    decreases pieces.len(),
{
    if pieces.len() == 0 {
        0
    } else {
        let t = trim(pieces.last());
        invalid_pieces(pieces.drop_last()) + if t.len() > 0 && !valid_hex(t) {
            1nat
        } else {
            0nat
        }
    }
}

/// Counts the pieces of a comma-separated colour list that are not
/// well-formed `#RRGGBB` colours.
pub fn invalid_hex_count(hex_list: &str) -> (n: usize)
    ensures
        n == invalid_pieces(split_on(hex_list@, ',')),
{
    let cs = chars_of(hex_list);
    let pieces = split_chars(&cs, ',');
    let ghost all = split_on(hex_list@, ',');
    let mut n: usize = 0;
    let mut k: usize = 0;
    while k < pieces.len()
        invariant
            k <= pieces.len(),
            views_of(pieces@) == all,
            n == invalid_pieces(all.take(k as int)),
            n <= k,
        decreases pieces.len() - k,
    {
        let (lo, hi) = trim_bounds(&pieces[k]);
        proof {
            assert(views_of(pieces@)[k as int] == pieces@[k as int]@);
            assert(all.take(k + 1).drop_last() == all.take(k as int));
            assert(all.take(k + 1).last() == all[k as int]);
        }
        if lo < hi {
            let t = string_of_range(&pieces[k], lo, hi);
            if !is_valid_hex(t.as_str()) {
                n = n + 1;
            }
        }
        k = k + 1;
    }
    assert(all.take(pieces.len() as int) == all);
    n
}

/// Hexadecimal digits have their base-16 values: `0`..`9` and `a`..`f`
/// are 0..15 in that order, `A`..`F` are 10..15, and every other byte is no
/// digit.
pub proof fn law_hex_digits_have_base16_values()
    ensures
        ({
            let lo = "0123456789abcdef"@;
            forall|k: int| 0 <= k < 16 ==> hex_digit(#[trigger] lo[k] as u8) == Some(k as nat)
        }),
        ({
            let up = "ABCDEF"@;
            forall|k: int| 0 <= k < 6 ==> hex_digit(#[trigger] up[k] as u8) == Some((k + 10) as nat)
        }),
        forall|b: u8|
            #![trigger hex_digit(b)]
            !(0x30 <= b <= 0x39 || 0x41 <= b <= 0x46 || 0x61 <= b <= 0x66) ==> hex_digit(b) is None,
{
    reveal_strlit("0123456789abcdef");
    reveal_strlit("ABCDEF");
    let lo = "0123456789abcdef"@;
    let up = "ABCDEF"@;
    assert forall|k: int| 0 <= k < 16 implies hex_digit(#[trigger] lo[k] as u8) == Some(k as nat) by {
        assert(hex_digit(lo[0] as u8) == Some(0nat));
        assert(hex_digit(lo[1] as u8) == Some(1nat));
        assert(hex_digit(lo[2] as u8) == Some(2nat));
        assert(hex_digit(lo[3] as u8) == Some(3nat));
        assert(hex_digit(lo[4] as u8) == Some(4nat));
        assert(hex_digit(lo[5] as u8) == Some(5nat));
        assert(hex_digit(lo[6] as u8) == Some(6nat));
        assert(hex_digit(lo[7] as u8) == Some(7nat));
        assert(hex_digit(lo[8] as u8) == Some(8nat));
        assert(hex_digit(lo[9] as u8) == Some(9nat));
        assert(hex_digit(lo[10] as u8) == Some(10nat));
        assert(hex_digit(lo[11] as u8) == Some(11nat));
        assert(hex_digit(lo[12] as u8) == Some(12nat));
        assert(hex_digit(lo[13] as u8) == Some(13nat));
        assert(hex_digit(lo[14] as u8) == Some(14nat));
        assert(hex_digit(lo[15] as u8) == Some(15nat));
    }
    assert forall|k: int| 0 <= k < 6 implies hex_digit(#[trigger] up[k] as u8) == Some((k + 10) as nat) by {
        assert(hex_digit(up[0] as u8) == Some(10nat));
        assert(hex_digit(up[1] as u8) == Some(11nat));
        assert(hex_digit(up[2] as u8) == Some(12nat));
        assert(hex_digit(up[3] as u8) == Some(13nat));
        assert(hex_digit(up[4] as u8) == Some(14nat));
        assert(hex_digit(up[5] as u8) == Some(15nat));
    }
}

/// A gradient always has at least one colour.
pub proof fn law_gradient_never_empty(list: Seq<char>)
    ensures
        gradient(list).len() >= 1,
{
}

proof fn lemma_pair_digits(b: Seq<u8>, i: int)
    requires
        0 <= i,
        i + 2 <= b.len(),
        hex_digit(b[i]) is Some,
        hex_digit(b[i + 1]) is Some,
    ensures
        radix16(b.subrange(i, i + 2)) is Some,
{
    let s = b.subrange(i, i + 2);
    assert(s[0] == b[i] && s[1] == b[i + 1]);
    lemma_digits_value_some(s);
    if s[0] == 0x2B {
        assert(hex_digit(s[0]) is None);
    }
}

/// A colour that passes the well-formedness check is read exactly: none of
/// its three channels falls back to 255 for want of a number.
pub proof fn law_valid_hex_read_exactly(hex: Seq<char>)
    requires
        valid_hex(hex),
    ensures
        ({
            let b = encode_utf8(hex_body(hex));
            &&& hex_color(hex) == ThemeColor::Rgb(channel(b, 0), channel(b, 2), channel(b, 4))
            &&& radix16(b.subrange(0, 2)) is Some
            &&& radix16(b.subrange(2, 4)) is Some
            &&& radix16(b.subrange(4, 6)) is Some
        }),
{
    let b = encode_utf8(hex_body(hex));
    let start: int = if b[0] == 0x2B { 1 } else { 0 };
    lemma_radix16_digits(b, start);
    assert(hex_digit(b[2]) is Some && hex_digit(b[3]) is Some);
    assert(hex_digit(b[4]) is Some && hex_digit(b[5]) is Some);
    lemma_pair_digits(b, 2);
    lemma_pair_digits(b, 4);
    if b[0] == 0x2B {
        let s = b.subrange(0, 2);
        assert(s[0] == 0x2B && s[1] == b[1]);
        assert(s.drop_first().len() == 1 && s.drop_first()[0] == b[1]);
        lemma_digits_value_some(s.drop_first());
    } else {
        assert(hex_digit(b[0]) is Some && hex_digit(b[1]) is Some);
        lemma_pair_digits(b, 0);
    }
}

proof fn lemma_digits_step(s: Seq<u8>, k: int)
    requires
        0 <= k < s.len(),
    ensures
        digits_value(s.take(k + 1)) == match (digits_value(s.take(k)), hex_digit(s[k])) {
            (Some(v), Some(d)) => Some(v * 16 + d),
            _ => None,
        },
{
    assert(s.take(k + 1).drop_last() == s.take(k));
    assert(s.take(k + 1).last() == s[k]);
}

/// The value of the hexadecimal digit `b`.
pub open spec fn dv(b: u8) -> nat {
    hex_digit(b)->0
}

/// Two hexadecimal digits read as a channel give sixteen times the first
/// digit's value plus the second's.
pub proof fn law_channel_is_two_digits(b: Seq<u8>, i: int)
    requires
        0 <= i,
        i + 2 <= b.len(),
        hex_digit(b[i]) is Some,
        hex_digit(b[i + 1]) is Some,
    ensures
        channel(b, i) == dv(b[i]) * 16 + dv(b[i + 1]),
{
    let s = b.subrange(i, i + 2);
    assert(s[0] == b[i] && s[1] == b[i + 1]);
    assert(s.take(0).len() == 0);
    lemma_digits_step(s, 0);
    lemma_digits_step(s, 1);
    assert(s.take(2) == s);
    assert(hex_digit(s[0]) is Some);
    assert(s[0] != 0x2B);
}

/// A well-formed colour's three channels, read two digits at a time, spell
/// the number its six digits (or its `+` and five digits) make in base 16:
/// red is the high byte, blue the low one.
pub proof fn law_channels_spell_the_number(hex: Seq<char>)
    requires
        valid_hex(hex),
    ensures
        ({
            let b = encode_utf8(hex_body(hex));
            hex_color(hex) matches ThemeColor::Rgb(r, g, bl) && r * 65536 + g * 256 + bl == radix16(b)->0
        }),
{
    let b = encode_utf8(hex_body(hex));
    let start: int = if b[0] == 0x2B { 1 } else { 0 };
    lemma_radix16_digits(b, start);
    assert(hex_digit(b[1]) is Some && hex_digit(b[2]) is Some && hex_digit(b[3]) is Some);
    assert(hex_digit(b[4]) is Some && hex_digit(b[5]) is Some);
    law_channel_is_two_digits(b, 2);
    law_channel_is_two_digits(b, 4);
    if b[0] == 0x2B {
        let ds = b.drop_first();
        assert(ds.take(0).len() == 0);
        lemma_digits_step(ds, 0);
        lemma_digits_step(ds, 1);
        lemma_digits_step(ds, 2);
        lemma_digits_step(ds, 3);
        lemma_digits_step(ds, 4);
        assert(ds.take(5) == ds);
        assert(ds[0] == b[1] && ds[1] == b[2] && ds[2] == b[3] && ds[3] == b[4] && ds[4] == b[5]);
        let s = b.subrange(0, 2);
        assert(s[0] == 0x2B && s[1] == b[1]);
        let t = s.drop_first();
        assert(t.len() == 1 && t[0] == b[1]);
        assert(t.take(0).len() == 0);
        lemma_digits_step(t, 0);
        assert(t.take(1) == t);
        assert(channel(b, 0) == dv(b[1]));
    } else {
        assert(hex_digit(b[0]) is Some);
        law_channel_is_two_digits(b, 0);
        assert(b.take(0).len() == 0);
        lemma_digits_step(b, 0);
        lemma_digits_step(b, 1);
        lemma_digits_step(b, 2);
        lemma_digits_step(b, 3);
        lemma_digits_step(b, 4);
        lemma_digits_step(b, 5);
        assert(b.take(6) == b);
    }
}

/// Surrounding whitespace does not change the colour an entry names.
pub proof fn law_hex_ignores_surrounding_space(hex: Seq<char>)
    ensures
        hex_color(trim(hex)) == hex_color(hex),
        valid_hex(trim(hex)) == valid_hex(hex),
{
    law_trim_idempotent(hex);
}

} // verus!
