//! Character-level string helpers: conversion to and from character
//! vectors, lexicographic order, decimal rendering and prefix tests.

use vstd::prelude::*;

verus! {

broadcast use vstd::string::group_string_axioms;

/// The characters of `s`, in order.
pub fn to_chars(s: &str) -> (r: Vec<char>)
    ensures
        r@ == s@,
{
    let mut out: Vec<char> = Vec::new();
    for c in it: s.chars()
        invariant
            out@ == it.seq().take(it.index() as int),
            it.seq() == s@,
    {
        out.push(c);
    }
    out
}

/// Appends one character to a string (`String::push`).
#[verifier::external_body]
pub fn push_char(s: &mut String, c: char)
    ensures
        final(s)@ == old(s)@.push(c),
{
    s.push(c);
}

/// Builds a string from its characters.
pub fn from_chars(cs: &[char]) -> (r: String)
    ensures
        r@ == cs@,
{
    let mut out = String::new();
    let mut i: usize = 0;
    while i < cs.len()
        invariant
            i <= cs.len(),
            out@ == cs@.take(i as int),
        decreases cs.len() - i,
    {
        push_char(&mut out, cs[i]);
        assert(cs@.take(i as int).push(cs@[i as int]) =~= cs@.take(i + 1));
        i += 1;
    }
    assert(cs@.take(cs.len() as int) =~= cs@);
    out
}


/// Result of a three-way comparison.
#[derive(Debug, Clone, Copy, PartialEq, Eq)]
pub enum Collation {
    Less,
    Equal,
    Greater,
}

/// Lexicographic order on character sequences (the order of `the standard string order`,
/// since UTF-8 byte order agrees with code-point order).
pub open spec fn seq_lt(a: Seq<char>, b: Seq<char>) -> bool
    decreases a.len(),
{
    if a.len() == 0 {
        b.len() > 0
    } else if b.len() == 0 {
        false
    } else if a[0] != b[0] {
        (a[0] as u32) < (b[0] as u32)
    } else {
        seq_lt(a.drop_first(), b.drop_first())
    }
}

/// `seq_lt` is irreflexive.
pub proof fn lemma_seq_lt_irreflexive(a: Seq<char>)
    ensures
        !seq_lt(a, a),
    decreases a.len(),
{
    if a.len() > 0 {
        lemma_seq_lt_irreflexive(a.drop_first());
    }
}

/// `seq_lt` is asymmetric.
pub proof fn lemma_seq_lt_asymmetric(a: Seq<char>, b: Seq<char>)
    ensures
        seq_lt(a, b) ==> !seq_lt(b, a),
    decreases a.len(),
{
    if a.len() > 0 && b.len() > 0 && a[0] == b[0] {
        lemma_seq_lt_asymmetric(a.drop_first(), b.drop_first());
    }
}

/// `seq_lt` is transitive.
pub proof fn lemma_seq_lt_transitive(a: Seq<char>, b: Seq<char>, c: Seq<char>)
    requires
        seq_lt(a, b),
        seq_lt(b, c),
    ensures
        seq_lt(a, c),
    decreases a.len(),
{
    if a.len() > 0 && b.len() > 0 && c.len() > 0 && a[0] == b[0] && b[0] == c[0] {
        lemma_seq_lt_transitive(a.drop_first(), b.drop_first(), c.drop_first());
    }
}

/// Any two distinct sequences are ordered one way or the other.
pub proof fn lemma_seq_lt_total(a: Seq<char>, b: Seq<char>)
    ensures
        a == b || seq_lt(a, b) || seq_lt(b, a),
    decreases a.len(),
{
    if a.len() > 0 && b.len() > 0 && a[0] == b[0] {
        lemma_seq_lt_total(a.drop_first(), b.drop_first());
        if a.drop_first() == b.drop_first() {
            assert(a =~= seq![a[0]] + a.drop_first());
            assert(b =~= seq![b[0]] + b.drop_first());
        }
    } else if a.len() == 0 && b.len() == 0 {
        assert(a =~= b);
    } else if a.len() > 0 && b.len() > 0 {
        vstd::utf8::char_u32_cast(a[0], a[0] as u32);
        vstd::utf8::char_u32_cast(b[0], b[0] as u32);
        assert((a[0] as u32) != (b[0] as u32));
    }
}

/// Three-way lexicographic comparison of two strings.
pub fn compare_str(a: &str, b: &str) -> (r: Collation)
    ensures
        (r == Collation::Less) <==> seq_lt(a@, b@),
        (r == Collation::Equal) <==> a@ == b@,
        (r == Collation::Greater) <==> seq_lt(b@, a@),
{
    let ac = to_chars(a);
    let bc = to_chars(b);
    proof {
        lemma_seq_lt_irreflexive(a@);
        lemma_seq_lt_asymmetric(a@, b@);
        lemma_seq_lt_total(a@, b@);
        assert(ac@.skip(0) =~= ac@);
        assert(bc@.skip(0) =~= bc@);
    }
    let mut i: usize = 0;
    while i < ac.len() && i < bc.len()
        invariant
            ac@ == a@,
            bc@ == b@,
            i <= ac.len(),
            i <= bc.len(),
            seq_lt(a@, b@) == seq_lt(ac@.skip(i as int), bc@.skip(i as int)),
            seq_lt(b@, a@) == seq_lt(bc@.skip(i as int), ac@.skip(i as int)),
            (a@ == b@) == (ac@.skip(i as int) == bc@.skip(i as int)),
        decreases ac.len() - i,
    {
        let x = ac[i];
        let y = bc[i];
        let ghost sa = ac@.skip(i as int);
        let ghost sb = bc@.skip(i as int);
        assert(sa[0] == x && sb[0] == y);
        let xv: u32 = x as u32;
        let yv: u32 = y as u32;
        if xv < yv {
            assert(sa != sb);
            return Collation::Less;
        } else if yv < xv {
            assert(sa != sb);
            return Collation::Greater;
        }
        proof {
            vstd::utf8::char_u32_cast(x, xv);
            vstd::utf8::char_u32_cast(y, yv);
        }
        assert(x == y);
        assert(sa.drop_first() =~= ac@.skip(i + 1));
        assert(sb.drop_first() =~= bc@.skip(i + 1));
        proof {
            if sa.drop_first() == sb.drop_first() {
                assert(sa =~= seq![sa[0]] + sa.drop_first());
                assert(sb =~= seq![sb[0]] + sb.drop_first());
            }
        }
        i += 1;
    }
    if ac.len() == bc.len() {
        assert(ac@.skip(i as int) =~= bc@.skip(i as int));
        Collation::Equal
    } else if ac.len() < bc.len() {
        assert(ac@.skip(i as int).len() == 0);
        Collation::Less
    } else {
        assert(bc@.skip(i as int).len() == 0);
        Collation::Greater
    }
}

/// Whether two strings hold the same characters.
pub fn str_eq(a: &str, b: &str) -> (r: bool)
    ensures
        r == (a@ == b@),
{
    match compare_str(a, b) {
        Collation::Equal => true,
        _ => false,
    }
}

/// The decimal digit character for `d < 10`.
pub open spec fn digit_char(d: nat) -> char {
    ((48 + d) as u8) as char
}

/// The decimal rendering of `n`, without sign or leading zeros.
pub open spec fn decimal(n: nat) -> Seq<char>
    decreases n,
{
    if n < 10 {
        seq![digit_char(n)]
    } else {
        decimal(n / 10).push(digit_char(n % 10))
    }
}

/// Appends the decimal rendering of `n` to `out`.
pub fn push_decimal(out: &mut String, n: u64)
    ensures
        final(out)@ == old(out)@ + decimal(n as nat),
    decreases n,
{
    if n >= 10 {
        push_decimal(out, n / 10);
    }
    let d: u8 = (n % 10) as u8;
    let c: char = (48u8 + d) as char;
    push_char(out, c);
    assert(old(out)@ + decimal(n as nat) =~= (if n >= 10 { old(out)@ + decimal((n / 10) as nat) } else { old(out)@ }).push(digit_char((n % 10) as nat)));
}

/// The decimal rendering of `n` (`n.to_string()`).
pub fn u64_to_string(n: u64) -> (r: String)
    ensures
        r@ == decimal(n as nat),
{
    let mut s = String::new();
    push_decimal(&mut s, n);
    assert(Seq::<char>::empty() + decimal(n as nat) =~= decimal(n as nat));
    s
}

/// Appends a string slice (`String::push_str`).
pub fn push_str(out: &mut String, s: &str)
    ensures
        final(out)@ == old(out)@ + s@,
{
    let cs = to_chars(s);
    let mut i: usize = 0;
    while i < cs.len()
        invariant
            i <= cs.len(),
            cs@ == s@,
            out@ == old(out)@ + cs@.take(i as int),
        decreases cs.len() - i,
    {
        push_char(out, cs[i]);
        assert(old(out)@ + cs@.take(i + 1) =~= (old(out)@ + cs@.take(i as int)).push(cs@[i as int]));
        i += 1;
    }
    assert(cs@.take(cs.len() as int) =~= cs@);
}

/// Whether `p` is a prefix of `s`.
pub open spec fn is_prefix(p: Seq<char>, s: Seq<char>) -> bool {
    p.len() <= s.len() && s.subrange(0, p.len() as int) == p
}

/// Strips `prefix` from `s` (`str::strip_prefix`).
pub fn strip_prefix(s: &str, prefix: &str) -> (r: Option<String>)
    ensures
        match r {
            Some(rest) => is_prefix(prefix@, s@) && rest@ == s@.subrange(prefix@.len() as int, s@.len() as int),
            None => !is_prefix(prefix@, s@),
        },
{
    let sc = to_chars(s);
    let pc = to_chars(prefix);
    if pc.len() > sc.len() {
        return None;
    }
    let mut i: usize = 0;
    while i < pc.len()
        invariant
            sc@ == s@,
            pc@ == prefix@,
            pc.len() <= sc.len(),
            i <= pc.len(),
            forall|j: int| 0 <= j < i ==> sc@[j] == pc@[j],
        decreases pc.len() - i,
    {
        if sc[i] != pc[i] {
            assert(s@.subrange(0, prefix@.len() as int)[i as int] != prefix@[i as int]);
            return None;
        }
        i += 1;
    }
    assert(s@.subrange(0, prefix@.len() as int) =~= prefix@);
    let mut rest: Vec<char> = Vec::new();
    let mut k: usize = pc.len();
    while k < sc.len()
        invariant
            sc@ == s@,
            pc.len() <= k <= sc.len(),
            rest@ == s@.subrange(pc.len() as int, k as int),
        decreases sc.len() - k,
    {
        rest.push(sc[k]);
        assert(s@.subrange(pc.len() as int, k + 1) =~= s@.subrange(pc.len() as int, k as int).push(s@[k as int]));
        k += 1;
    }
    Some(from_chars(rest.as_slice()))
}


/// The text `{:?}` gives for a string (std's `Debug` for `str`: quoted,
/// with escapes).
pub uninterp spec fn debug_text(s: Seq<char>) -> Seq<char>;

/// Formats a string with `{:?}`.
#[verifier::external_body]
pub fn debug_quoted(s: &str) -> (r: String)
    ensures
        r@ == debug_text(s@),
{
    format!("{s:?}")
}

/// The items joined with `sep` between them.
pub open spec fn join(items: Seq<Seq<char>>, sep: Seq<char>) -> Seq<char>
    decreases items.len(),
{
    if items.len() == 0 {
        Seq::empty()
    } else if items.len() == 1 {
        items[0]
    } else {
        join(items.drop_last(), sep) + sep + items.last()
    }
}

/// Appends the items joined with `sep`.
pub fn push_join(out: &mut String, items: &[String], sep: &str)
    ensures
        final(out)@ == old(out)@ + join(items@.map_values(|s: String| s@), sep@),
{
    let ghost views = items@.map_values(|s: String| s@);
    let ghost start = out@;
    let mut i: usize = 0;
    while i < items.len()
        invariant
            i <= items@.len(),
            views == items@.map_values(|s: String| s@),
            out@ == start + join(views.take(i as int), sep@),
        decreases items.len() - i,
    {
        if i > 0 {
            push_str(out, sep);
        }
        push_str(out, items[i].as_str());
        assert(views.take(i + 1).drop_last() =~= views.take(i as int));
        if i == 0 {
            assert(views.take(1)[0] == views[0]);
        }
        i += 1;
    }
    assert(views.take(items@.len() as int) =~= views);
}

} // verus!
