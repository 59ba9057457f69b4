//! The canonical byte encoding of a JSON document, the input of the scene
//! state hash: one tag byte per value, little-endian fixed-width numbers
//! and lengths, UTF-8 string bytes, object members in ascending key order;
//! and its `DefaultHasher` digest.

use vstd::prelude::*;
use vstd::std_specs::hash::DefaultHasherAdditionalSpecFns;
use vstd::utf8::encode_utf8;
use crate::strmap::{StrMap, keys_ascending};
use crate::json::{Json, i64_of_number, number_as_i64};

verus! {

/// The IEEE-754 bit pattern of what `serde_json::Number::as_f64` gives
/// for a number (`f64::to_bits` of it), when it gives one.
pub uninterp spec fn float_bits_of(n: serde_json::Number) -> Option<u64>;

/// `Number::as_f64` followed by `f64::to_bits`: the number's float bits.
#[verifier::external_body]
fn number_float_bits(n: &serde_json::Number) -> (r: Option<u64>)
    ensures
        r == float_bits_of(*n),
{
    match n.as_f64() {
        Some(f) => Some(f.to_bits()),
        None => None,
    }
}

/// The `n` low-order bytes of `x`, least significant first (so
/// `le_bytes(x, 4)` is `(x as u32).to_le_bytes()`).
pub open spec fn le_bytes(x: nat, n: nat) -> Seq<u8>
    decreases n,
{
    if n == 0 {
        Seq::empty()
    } else {
        seq![(x % 256) as u8] + le_bytes(x / 256, (n - 1) as nat)
    }
}

/// The 64-bit two's-complement pattern of `i`, as an unsigned number.
pub open spec fn twos(i: i64) -> nat {
    if i < 0 { (i + 0x1_0000_0000_0000_0000int) as nat } else { i as nat }
}

/// The eight bytes written for a number: its `i64` value if it has one,
/// else the bits of its `f64` value, else a single zero byte.
pub open spec fn number_bytes(n: serde_json::Number) -> Seq<u8> {
    match i64_of_number(n) {
        Some(i) => le_bytes(twos(i), 8),
        None => match float_bits_of(n) {
            Some(b) => le_bytes(b as nat, 8),
            None => seq![0u8],
        },
    }
}

/// A string as written: its UTF-8 length (as four bytes) and its bytes.
pub open spec fn text_bytes(s: Seq<char>) -> Seq<u8> {
    le_bytes(encode_utf8(s).len(), 4) + encode_utf8(s)
}

/// The canonical encoding of a document.
pub open spec fn canonical(j: Json) -> Seq<u8>
    decreases j, 1nat, 0nat,
{
    match j {
        Json::Null => seq![0u8],
        Json::Bool(b) => seq![1u8, if b { 1u8 } else { 0u8 }],
        Json::Int(i) => seq![2u8] + le_bytes(twos(i), 8),
        Json::Float(n) => seq![2u8] + number_bytes(n),
        Json::Str(s) => seq![3u8] + text_bytes(s@),
        Json::Array(items) => seq![4u8] + le_bytes(items@.len(), 4) + items_bytes(j, items@.len()),
        Json::Object(m) => seq![5u8] + le_bytes(m.key_seq().len(), 4) + members_bytes(j, m.key_seq().len()),
    }
}

/// The encodings of the first `k` items of an array, concatenated.
pub open spec fn items_bytes(owner: Json, k: nat) -> Seq<u8>
    decreases owner, 0nat, k,
{
    if let Json::Array(items) = owner {
        if k == 0 || k > items@.len() {
            Seq::empty()
        } else {
            proof { vstd::std_specs::vec::axiom_vec_index_decreases(items, k - 1); }
            items_bytes(owner, (k - 1) as nat) + canonical(items@[k - 1])
        }
    } else {
        Seq::empty()
    }
}

/// The first `k` members of an object (key, then value), concatenated.
pub open spec fn members_bytes(owner: Json, k: nat) -> Seq<u8>
    decreases owner, 0nat, k,
{
    if let Json::Object(m) = owner {
        if k == 0 || k > m.key_seq().len() {
            Seq::empty()
        } else {
            proof { m.lemma_value_decreases(k - 1); }
            members_bytes(owner, (k - 1) as nat) + text_bytes(m.key_seq()[k - 1]) + canonical(m.value_seq()[k - 1])
        }
    } else {
        Seq::empty()
    }
}

/// Appends the `n` low-order bytes of `x`, least significant first.
pub(crate) fn push_le(out: &mut Vec<u8>, x: u64, n: usize)
    requires
        n <= 8,
    ensures
        final(out)@ == old(out)@ + le_bytes(x as nat, n as nat),
{
    let ghost start = out@;
    let mut cur: u64 = x;
    let mut k: usize = 0;
    while k < n
        invariant
            k <= n,
            out@ + le_bytes(cur as nat, (n - k) as nat) == start + le_bytes(x as nat, n as nat),
        decreases n - k,
    {
        let ghost before = out@;
        let ghost m: nat = (n - k) as nat;
        assert(le_bytes(cur as nat, m) == seq![(cur % 256) as u8] + le_bytes((cur / 256) as nat, (m - 1) as nat));
        out.push((cur % 256) as u8);
        assert(out@ + le_bytes((cur / 256) as nat, (m - 1) as nat) =~= before + le_bytes(cur as nat, m));
        cur = cur / 256;
        k += 1;
    }
    assert(out@ + le_bytes(cur as nat, 0) =~= out@);
}

/// Appends the 64-bit two's-complement bytes of `i`.
pub(crate) fn push_i64(out: &mut Vec<u8>, i: i64)
    ensures
        final(out)@ == old(out)@ + le_bytes(twos(i), 8),
{
    let u: u64 = if i >= 0 {
        i as u64
    } else {
        let m: i64 = -(i + 1);
        u64::MAX - (m as u64)
    };
    assert(u as nat == twos(i));
    push_le(out, u, 8);
}

/// Appends a string's UTF-8 length (four bytes) and its bytes.
pub(crate) fn push_text(out: &mut Vec<u8>, s: &str)
    ensures
        final(out)@ == old(out)@ + text_bytes(s@),
{
    let bytes = s.as_bytes();
    let len: usize = bytes.len();
    push_le(out, len as u64, 4);
    let ghost start = out@;
    let mut i: usize = 0;
    while i < len
        invariant
            i <= len,
            len == bytes@.len(),
            bytes@ == encode_utf8(s@),
            out@ == start + bytes@.take(i as int),
        decreases len - i,
    {
        out.push(bytes[i]);
        assert(bytes@.take(i + 1) =~= bytes@.take(i as int).push(bytes@[i as int]));
        i += 1;
    }
    assert(bytes@.take(len as int) =~= bytes@);
    assert(out@ =~= old(out)@ + text_bytes(s@));
}

/// Appends the canonical encoding of a document.
#[verifier::loop_isolation(false)]
pub fn write_canonical(out: &mut Vec<u8>, v: &Json)
    ensures
        final(out)@ == old(out)@ + canonical(*v),
    decreases v,
{
    match v {
        Json::Null => {
            out.push(0u8);
        },
        Json::Bool(b) => {
            out.push(1u8);
            out.push(if *b { 1u8 } else { 0u8 });
            assert(out@ =~= old(out)@ + canonical(*v));
        },
        Json::Int(i) => {
            out.push(2u8);
            push_i64(out, *i);
            assert(out@ =~= old(out)@ + canonical(*v));
        },
        Json::Float(n) => {
            out.push(2u8);
            match number_as_i64(n) {
                Some(i) => push_i64(out, i),
                None => match number_float_bits(n) {
                    Some(b) => push_le(out, b, 8),
                    None => out.push(0u8),
                },
            }
            assert(out@ =~= old(out)@ + canonical(*v));
        },
        Json::Str(s) => {
            out.push(3u8);
            push_text(out, s.as_str());
            assert(out@ =~= old(out)@ + canonical(*v));
        },
        Json::Array(items) => {
            out.push(4u8);
            push_le(out, items.len() as u64, 4);
            let ghost start = out@;
            let mut i: usize = 0;
            while i < items.len()
                invariant
                    i <= items@.len(),
                    out@ == start + items_bytes(*v, i as nat),
                decreases items.len() - i,
            {
                proof { vstd::std_specs::vec::axiom_vec_index_decreases(*items, i as int); }
                write_canonical(out, &items[i]);
                assert(out@ =~= start + items_bytes(*v, (i + 1) as nat));
                i += 1;
            }
            assert(out@ =~= old(out)@ + canonical(*v));
        },
        Json::Object(m) => {
            out.push(5u8);
            let n = m.len();
            push_le(out, n as u64, 4);
            let ghost start = out@;
            let mut i: usize = 0;
            while i < n
                invariant
                    i <= n,
                    n == m.key_seq().len(),
                    out@ == start + members_bytes(*v, i as nat),
                decreases n - i,
            {
                let k = m.key_at(i);
                push_text(out, k.as_str());
                let val = m.value_at(i);
                proof { m.lemma_value_decreases(i as int); }
                write_canonical(out, val);
                assert(out@ =~= start + members_bytes(*v, (i + 1) as nat));
                i += 1;
            }
            assert(out@ =~= old(out)@ + canonical(*v));
        },
    }
}

/// The canonical encoding of a document, which the scene state hash digests.
pub fn canonicalize(v: &Json) -> (r: Vec<u8>)
    ensures
        r@ == canonical(*v),
{
    let mut out: Vec<u8> = Vec::new();
    write_canonical(&mut out, v);
    assert(Seq::<u8>::empty() + canonical(*v) =~= canonical(*v));
    out
}

/// The writes `Hash::hash` makes of a `Vec<u8>` into a hasher (its
/// length as a native `usize`, then its bytes), as the byte strings
/// `Hasher::write` receives; fixed for one build of the standard library
/// on one target.
pub uninterp spec fn vec_hash_writes(bytes: Seq<u8>) -> Seq<Seq<u8>>;

/// `<Vec<u8> as Hash>::hash` into a `DefaultHasher`.
#[verifier::external_body]
fn hash_vec(bytes: &Vec<u8>, hasher: &mut std::collections::hash_map::DefaultHasher)
    ensures
        final(hasher)@ == old(hasher)@ + vec_hash_writes(bytes@),
{
    std::hash::Hash::hash(bytes, hasher)
}

/// What a `DefaultHasher` made by `DefaultHasher::new()` finishes with
/// after hashing `bytes` as a `Vec<u8>`. `new()` uses fixed keys, so the
/// same bytes always give the same number.
pub open spec fn default_hash(bytes: Seq<u8>) -> u64 {
    std::collections::hash_map::DefaultHasher::spec_finish(Seq::<Seq<u8>>::empty() + vec_hash_writes(bytes))
}

/// Hashes a byte vector with a fresh `DefaultHasher` and finishes it.
pub(crate) fn hash_bytes(bytes: &Vec<u8>) -> (r: u64)
    ensures
        r == default_hash(bytes@),
{
    let mut hasher = std::collections::hash_map::DefaultHasher::new();
    hash_vec(bytes, &mut hasher);
    std::hash::Hasher::finish(&hasher)
}

/// The `DefaultHasher` digest of a document's canonical encoding.
pub fn hash_document(doc: &Json) -> (r: u64)
    ensures
        r == default_hash(canonical(*doc)),
{
    let bytes = canonicalize(doc);
    hash_bytes(&bytes)
}

proof fn lemma_members_bytes_same(m1: StrMap<Json>, m2: StrMap<Json>, k: nat)
    requires
        m1.key_seq() == m2.key_seq(),
        m1.value_seq() == m2.value_seq(),
    ensures
        members_bytes(Json::Object(m1), k) == members_bytes(Json::Object(m2), k),
    decreases k,
{
    if k > 0 {
        lemma_members_bytes_same(m1, m2, (k - 1) as nat);
    }
}

/// An object's canonical bytes depend only on its members, not on the
/// order they were inserted in: objects with the same members encode the
/// same.
pub proof fn law_object_bytes_ignore_insertion_order(m1: StrMap<Json>, m2: StrMap<Json>)
    requires
        keys_ascending(m1.key_seq()),
        keys_ascending(m2.key_seq()),
        m1@ == m2@,
    ensures
        canonical(Json::Object(m1)) == canonical(Json::Object(m2)),
{
    m1.lemma_same_view_same_entries(m2);
    lemma_members_bytes_same(m1, m2, m1.key_seq().len());
}

} // verus!
