//! Typo suggestions: Levenshtein edit distance and "did you mean" hints.

use vstd::prelude::*;
use crate::text::{to_chars, push_str};

verus! {

broadcast use vstd::string::group_string_axioms;

pub open spec fn min3(x: nat, y: nat, z: nat) -> nat {
    if x <= y && x <= z { x } else if y <= z { y } else { z }
}

/// The Levenshtein distance: fewest single-character insertions,
/// deletions and substitutions turning `a` into `b`.
pub open spec fn edit_distance(a: Seq<char>, b: Seq<char>) -> nat
    decreases a.len() + b.len(),
{
    if a.len() == 0 {
        b.len()
    } else if b.len() == 0 {
        a.len()
    } else {
        min3(
            edit_distance(a.drop_last(), b) + 1,
            edit_distance(a, b.drop_last()) + 1,
            edit_distance(a.drop_last(), b.drop_last()) + if a.last() == b.last() { 0nat } else { 1nat },
        )
    }
}

/// The distance never exceeds the longer length.
pub proof fn lemma_edit_distance_bound(a: Seq<char>, b: Seq<char>)
    ensures
        edit_distance(a, b) <= if a.len() >= b.len() { a.len() } else { b.len() },
    decreases a.len() + b.len(),
{
    if a.len() > 0 && b.len() > 0 {
        lemma_edit_distance_bound(a.drop_last(), b.drop_last());
    }
}

fn min_u128(x: u128, y: u128) -> (r: u128)
    ensures
        r == if x <= y { x } else { y },
{
    if x <= y { x } else { y }
}

/// Levenshtein distance between two strings, by characters.
pub fn levenshtein(a: &str, b: &str) -> (d: usize)
    ensures
        d == edit_distance(a@, b@),
{
    let ac = to_chars(a);
    let bc = to_chars(b);
    let n = bc.len();
    let mut prev: Vec<u128> = Vec::new();
    let mut j: usize = 0;
    while j < n
        invariant
            n == bc@.len(),
            j <= n,
            prev@.len() == j,
            forall|k: int| 0 <= k < j ==> prev@[k] == edit_distance(ac@.take(0), bc@.take(k)),
        decreases n - j,
    {
        proof { assert(ac@.take(0).len() == 0); }
        prev.push(j as u128);
        j += 1;
    }
    proof { assert(ac@.take(0).len() == 0); }
    prev.push(n as u128);
    let mut i: usize = 0;
    while i < ac.len()
        invariant
            n == bc@.len(),
            ac@ == a@,
            bc@ == b@,
            i <= ac@.len(),
            prev@.len() == n + 1,
            forall|k: int| 0 <= k <= n ==> prev@[k] == edit_distance(ac@.take(i as int), bc@.take(k)),
        decreases ac.len() - i,
    {
        let ghost ai = ac@.take(i + 1);
        let ghost ap = ac@.take(i as int);
        assert(ai.drop_last() =~= ap);
        let mut curr: Vec<u128> = Vec::new();
        proof { assert(bc@.take(0).len() == 0); }
        curr.push((i as u128) + 1);
        let mut k: usize = 0;
        while k < n
            invariant
                n == bc@.len(),
                i < ac@.len(),
                ai == ac@.take(i + 1),
                ap == ac@.take(i as int),
                ai.drop_last() == ap,
                k <= n,
                curr@.len() == k + 1,
                prev@.len() == n + 1,
                forall|m: int| 0 <= m <= n ==> prev@[m] == edit_distance(ap, bc@.take(m)),
                forall|m: int| 0 <= m <= k ==> curr@[m] == edit_distance(ai, bc@.take(m)),
            decreases n - k,
        {
            let ghost bk = bc@.take(k + 1);
            assert(bk.drop_last() =~= bc@.take(k as int));
            proof {
                lemma_edit_distance_bound(ap, bc@.take(k + 1));
                lemma_edit_distance_bound(ai, bc@.take(k as int));
                lemma_edit_distance_bound(ap, bc@.take(k as int));
            }
            let cost: u128 = if ac[i] == bc[k] { 0 } else { 1 };
            let v = min_u128(min_u128(prev[k + 1] + 1, curr[k] + 1), prev[k] + cost);
            proof {
                assert(ai.last() == ac@[i as int]);
                assert(bk.last() == bc@[k as int]);
            }
            curr.push(v);
            k += 1;
        }
        prev = curr;
        i += 1;
    }
    assert(ac@.take(ac@.len() as int) =~= ac@);
    assert(bc@.take(n as int) =~= bc@);
    proof { lemma_edit_distance_bound(a@, b@); }
    prev[n] as usize
}

/// Index of the closest candidate within distance 3 (the first one on
/// ties), if any.
pub open spec fn best_match(unknown: Seq<char>, known: Seq<Seq<char>>) -> Option<int>
    decreases known.len(),
{
    if known.len() == 0 {
        None
    } else {
        let before = best_match(unknown, known.drop_last());
        let d = edit_distance(unknown, known.last());
        if d <= 3 && (before is None || d < edit_distance(unknown, known[before->0])) {
            Some(known.len() - 1)
        } else {
            before
        }
    }
}

pub proof fn lemma_best_match_range(unknown: Seq<char>, known: Seq<Seq<char>>)
    ensures
        best_match(unknown, known) matches Some(i) ==> 0 <= i < known.len(),
    decreases known.len(),
{
    if known.len() > 0 {
        lemma_best_match_range(unknown, known.drop_last());
    }
}

/// The hint for a misspelled name.
pub open spec fn did_you_mean(name: Seq<char>) -> Seq<char> {
    "Did you mean \""@ + name + "\"?"@
}

/// "Did you mean ...?" for the closest known name within distance 3.
pub fn suggest_rename(unknown: &str, known: &[&str]) -> (r: Option<String>)
    ensures
        match best_match(unknown@, known@.map_values(|s: &str| s@)) {
            Some(i) => r matches Some(s) && s@ == did_you_mean(known@[i]@),
            None => r is None,
        },
{
    let ghost ks = known@.map_values(|s: &str| s@);
    let mut best: Option<(usize, usize)> = None;
    let mut i: usize = 0;
    while i < known.len()
        invariant
            i <= known@.len(),
            ks == known@.map_values(|s: &str| s@),
            match best_match(unknown@, ks.take(i as int)) {
                Some(b) => best matches Some(p) && p.0 == b && p.1 == edit_distance(unknown@, ks[b]),
                None => best is None,
            },
        decreases known.len() - i,
    {
        proof { lemma_best_match_range(unknown@, ks.take(i as int)); }
        assert(ks.take(i + 1).drop_last() =~= ks.take(i as int));
        let dist = levenshtein(unknown, known[i]);
        let better = match best {
            None => dist <= 3,
            Some((_, d)) => dist <= 3 && dist < d,
        };
        if better {
            best = Some((i, dist));
        }
        proof {
            let pre = ks.take(i as int);
            if let Some(b) = best_match(unknown@, pre) {
                assert(ks.take(i + 1)[b] == ks[b]);
            }
        }
        i += 1;
    }
    assert(ks.take(known@.len() as int) =~= ks);
    proof { lemma_best_match_range(unknown@, ks); }
    match best {
        Some((idx, _)) => {
            let mut s = String::new();
            push_str(&mut s, "Did you mean \"");
            push_str(&mut s, known[idx]);
            push_str(&mut s, "\"?");
            assert(s@ =~= did_you_mean(known@[idx as int]@));
            Some(s)
        },
        None => None,
    }
}

} // verus!
