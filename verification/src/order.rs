use vstd::prelude::*;

use crate::text::{chars_of, same_chars};

verus! {

/// Whether `a` comes no later than `b` in character order (the order of
/// their UTF-8 bytes).
pub open spec fn chars_le(a: Seq<char>, b: Seq<char>) -> bool
    decreases a.len(),
{
    if a.len() == 0 {
        true
    } else if b.len() == 0 {
        false
    } else if a[0] != b[0] {
        (a[0] as int) < (b[0] as int)
    } else {
        chars_le(a.drop_first(), b.drop_first())
    }
}

pub open spec fn name_order() -> spec_fn(Seq<char>, Seq<char>) -> bool {
    |a: Seq<char>, b: Seq<char>| chars_le(a, b)
}

pub proof fn lemma_chars_le_total(a: Seq<char>, b: Seq<char>)
    ensures
        chars_le(a, b) || chars_le(b, a),
    decreases a.len(),
{
    if a.len() > 0 && b.len() > 0 && a[0] == b[0] {
        lemma_chars_le_total(a.drop_first(), b.drop_first());
    }
}

pub proof fn lemma_chars_le_transitive(a: Seq<char>, b: Seq<char>, c: Seq<char>)
    requires
        chars_le(a, b),
        chars_le(b, c),
    ensures
        chars_le(a, c),
    decreases a.len(),
{
    if a.len() > 0 && b.len() > 0 && c.len() > 0 && a[0] == b[0] && b[0] == c[0] {
        lemma_chars_le_transitive(a.drop_first(), b.drop_first(), c.drop_first());
    }
}

/// Whether `a` comes no later than `b` in character order.
pub fn name_le(a: &Vec<char>, b: &Vec<char>) -> (r: bool)
    ensures
        r == chars_le(a@, b@),
{
    let mut i: usize = 0;
    assert(a@.skip(0) == a@ && b@.skip(0) == b@);
    while i < a.len() && i < b.len()
        invariant
            i <= a@.len(),
            i <= b@.len(),
            chars_le(a@, b@) == chars_le(a@.skip(i as int), b@.skip(i as int)),
        decreases a@.len() - i,
    {
        let x = a[i];
        let y = b[i];
        assert(a@.skip(i as int)[0] == x && b@.skip(i as int)[0] == y);
        if x != y {
            return x < y;
        }
        assert(a@.skip(i as int).drop_first() == a@.skip(i + 1));
        assert(b@.skip(i as int).drop_first() == b@.skip(i + 1));
        i = i + 1;
    }
    i == a.len()
}

pub proof fn lemma_chars_le_antisymmetric(a: Seq<char>, b: Seq<char>)
    requires
        chars_le(a, b),
        chars_le(b, a),
    ensures
        a == b,
    decreases a.len(),
{
    if a.len() > 0 && b.len() > 0 {
        lemma_chars_le_antisymmetric(a.drop_first(), b.drop_first());
        assert(a[0] == b[0]);
        assert(a =~= seq![a[0]] + a.drop_first());
        assert(b =~= seq![b[0]] + b.drop_first());
    }
}

/// Names are listed in a total order: exactly one of before, same, after
/// holds for two names, swapping them swaps before and after, and "no
/// later than" chains.
pub proof fn law_name_order_is_total(a: Seq<char>, b: Seq<char>, c: Seq<char>)
    ensures
        (chars_order(a, b) == Order::Equal) <==> a == b,
        (chars_order(a, b) == Order::Less) <==> (chars_order(b, a) == Order::Greater),
        chars_order(a, b) != Order::Greater && chars_order(b, c) != Order::Greater ==> chars_order(a, c)
            != Order::Greater,
{
    lemma_chars_le_total(a, b);
    if chars_le(a, b) && chars_le(b, a) {
        lemma_chars_le_antisymmetric(a, b);
    }
    if chars_order(a, b) != Order::Greater && chars_order(b, c) != Order::Greater {
        if a != b && b != c {
            lemma_chars_le_transitive(a, b, c);
        }
    }
}

/// How two entries of a directory compare in the listing.
#[derive(Clone, Copy, Debug, PartialEq, Eq, Structural)]
pub enum Order {
    Less,
    Equal,
    Greater,
}

/// How two names compare in character order (the order of their UTF-8
/// bytes).
pub open spec fn chars_order(a: Seq<char>, b: Seq<char>) -> Order {
    if a == b {
        Order::Equal
    } else if chars_le(a, b) {
        Order::Less
    } else {
        Order::Greater
    }
}

/// `first`, with ties broken by `then`.
pub open spec fn then_by(first: Order, then: Order) -> Order {
    if first == Order::Equal {
        then
    } else {
        first
    }
}

/// The position of the last `.` in `s`, if any.
pub open spec fn last_dot(s: Seq<char>) -> Option<int>
    decreases s.len(),
{
    if s.len() == 0 {
        None
    } else if s.last() == '.' {
        Some(s.len() - 1)
    } else {
        last_dot(s.drop_last())
    }
}

/// The extension of a file name as `Path::extension` reads it: what follows
/// the last dot, when something comes before that dot (`..` has none).
pub open spec fn extension_of(name: Seq<char>) -> Option<Seq<char>> {
    if name == ".."@ {
        None
    } else {
        match last_dot(name) {
            Some(k) => if k > 0 {
                Some(name.skip(k + 1))
            } else {
                None
            },
            None => None,
        }
    }
}

/// Optional names compare with a missing one first.
pub open spec fn option_order(a: Option<Seq<char>>, b: Option<Seq<char>>) -> Order {
    match (a, b) {
        (None, None) => Order::Equal,
        (None, Some(_)) => Order::Less,
        (Some(_), None) => Order::Greater,
        (Some(x), Some(y)) => chars_order(x, y),
    }
}

/// Larger first.
pub open spec fn larger_first(a: int, b: int) -> Order {
    if a > b {
        Order::Less
    } else if a == b {
        Order::Equal
    } else {
        Order::Greater
    }
}

fn chars_order_of(a: &Vec<char>, b: &Vec<char>) -> (o: Order)
    ensures
        o == chars_order(a@, b@),
{
    if same_chars(a, b) {
        Order::Equal
    } else if name_le(a, b) {
        Order::Less
    } else {
        Order::Greater
    }
}

proof fn lemma_last_dot_at(s: Seq<char>, k: int)
    requires
        -1 <= k < s.len(),
        k >= 0 ==> s[k] == '.',
        forall|j: int| k < j < s.len() ==> s[j] != '.',
    ensures
        last_dot(s) == if k >= 0 { Some(k) } else { None::<int> },
    decreases s.len(),
{
    if s.len() > 0 && k < s.len() - 1 {
        assert(s.last() != '.');
        assert forall|j: int| k < j < s.drop_last().len() implies s.drop_last()[j] != '.' by {
            assert(s.drop_last()[j] == s[j]);
        }
        lemma_last_dot_at(s.drop_last(), k);
    }
}

/// The extension of a file name, as its characters.
fn extension_chars(name: &Vec<char>) -> (e: Option<Vec<char>>)
    ensures
        match e {
            Some(v) => extension_of(name@) == Some(v@),
            None => extension_of(name@) is None,
        },
{
    let dots = chars_of("..");
    proof {
        reveal_strlit("..");
    }
    if same_chars(name, &dots) {
        return None;
    }
    let n = name.len();
    let mut k = n;
    while k > 0 && name[k - 1] != '.'
        invariant
            k <= n == name@.len(),
            forall|j: int| k <= j < n ==> name@[j] != '.',
        decreases k,
    {
        k = k - 1;
    }
    if k == 0 {
        proof {
            lemma_last_dot_at(name@, -1);
        }
        return None;
    }
    proof {
        lemma_last_dot_at(name@, k - 1);
    }
    if k == 1 {
        return None;
    }
    let mut ext: Vec<char> = Vec::new();
    let mut i = k;
    while i < n
        invariant
            k <= i <= n == name@.len(),
            ext@ == name@.subrange(k as int, i as int),
        decreases n - i,
    {
        ext.push(name[i]);
        i = i + 1;
    }
    assert(ext@ == name@.skip(k as int));
    Some(ext)
}

/// How two entries compare by name.
pub fn by_name(a: &str, b: &str) -> (o: Order)
    ensures
        o == chars_order(a@, b@),
{
    chars_order_of(&chars_of(a), &chars_of(b))
}

/// How two entries compare by extension (none first), then by name.
pub fn by_extension(a: &str, b: &str) -> (o: Order)
    ensures
        o == then_by(option_order(extension_of(a@), extension_of(b@)), chars_order(a@, b@)),
{
    let ca = chars_of(a);
    let cb = chars_of(b);
    let first = match (extension_chars(&ca), extension_chars(&cb)) {
        (None, None) => Order::Equal,
        (None, Some(_)) => Order::Less,
        (Some(_), None) => Order::Greater,
        (Some(x), Some(y)) => chars_order_of(&x, &y),
    };
    if first == Order::Equal {
        chars_order_of(&ca, &cb)
    } else {
        first
    }
}

/// How two entries compare by size (larger first), then by name.
pub fn by_size(size_a: u64, size_b: u64, a: &str, b: &str) -> (o: Order)
    ensures
        o == then_by(larger_first(size_a as int, size_b as int), chars_order(a@, b@)),
{
    if size_a > size_b {
        Order::Less
    } else if size_a == size_b {
        chars_order_of(&chars_of(a), &chars_of(b))
    } else {
        Order::Greater
    }
}

/// How two entries compare by modification time (newest first), then by
/// name; times are nanoseconds since the Unix epoch, negative before it.
pub fn by_modified(time_a: i128, time_b: i128, a: &str, b: &str) -> (o: Order)
    ensures
        o == then_by(larger_first(time_a as int, time_b as int), chars_order(a@, b@)),
{
    if time_a > time_b {
        Order::Less
    } else if time_a == time_b {
        chars_order_of(&chars_of(a), &chars_of(b))
    } else {
        Order::Greater
    }
}

} // verus!
