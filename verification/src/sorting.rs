//! Ordering the process list: every column but the two text columns sorts
//! by a `u64` key per process (percentages by the bits of their float),
//! flipped for a descending sort, with the process's position breaking
//! ties; the text columns sort by the text's bytes, ties again by position.

use vstd::prelude::*;
use crate::bytes::{lemma_lex_order_equal, lemma_lex_order_flip, lemma_lex_order_transitive, lex_compare, Order};
use crate::users::text_order;
use vstd::utf8::encode_utf8;

verus! {

broadcast use vstd::seq_lib::group_to_multiset_ensures;

/// The sort key of a 32-bit float given by its bits (taken after adding
/// `0.0`, so `-0.0` arrives as `0.0`): larger floats get larger keys,
/// negatives below positives.
pub open spec fn spec_f32_sort_key(bits: u32) -> u64 {
    if bits >= 0x8000_0000 {
        (0xFFFF_FFFFu32 - bits) as u64
    } else {
        (bits + 0x8000_0000u32) as u64
    }
}

pub fn f32_sort_key_bits(bits: u32) -> (r: u64)
    ensures
        r == spec_f32_sort_key(bits),
{
    let mapped: u32 = if bits & 0x8000_0000 != 0 {
        !bits
    } else {
        bits | 0x8000_0000
    };
    assert(bits & 0x8000_0000 != 0 ==> bits >= 0x8000_0000 && !bits == 0xFFFF_FFFFu32 - bits) by (bit_vector);
    assert(bits & 0x8000_0000 == 0 ==> bits < 0x8000_0000 && bits | 0x8000_0000 == bits + 0x8000_0000u32) by (bit_vector);
    mapped as u64
}

/// Keys keep the order of the floats: among positives the larger bits, among
/// negatives the smaller bits (the smaller magnitude), and every negative
/// below every positive.
pub proof fn f32_sort_key_monotone(a: u32, b: u32)
    ensures
        a < b && b < 0x8000_0000 ==> spec_f32_sort_key(a) < spec_f32_sort_key(b),
        0x8000_0000 <= a && a < b ==> spec_f32_sort_key(a) > spec_f32_sort_key(b),
        a >= 0x8000_0000 && b < 0x8000_0000 ==> spec_f32_sort_key(a) < spec_f32_sort_key(b),
{
}

/// The key used for a column sorted in `ascending` order or not.
pub fn directed_key(key: u64, ascending: bool) -> (r: u64)
    ensures
        r == if ascending { key } else { (u64::MAX - key) as u64 },
{
    let flip: u64 = if ascending { 0 } else { u64::MAX };
    assert(key ^ 0u64 == key) by (bit_vector);
    assert(key ^ 0xFFFF_FFFF_FFFF_FFFFu64 == 0xFFFF_FFFF_FFFF_FFFFu64 - key) by (bit_vector);
    key ^ flip
}

/// `(key, position)` pairs in lexicographic order.
pub open spec fn entry_le(a: (u64, usize), b: (u64, usize)) -> bool {
    a.0 < b.0 || (a.0 == b.0 && a.1 <= b.1)
}

/// `(key, position)` pairs ordered by the text at each position (reversed
/// for a descending sort), equal texts by position.
pub open spec fn text_entry_le(texts: Seq<Seq<char>>, ascending: bool, a: (u64, usize), b: (u64, usize)) -> bool {
    let o = text_order(texts[a.1 as int], texts[b.1 as int]);
    if o == Order::Equal {
        a.1 <= b.1
    } else if ascending {
        o == Order::Less
    } else {
        o == Order::Greater
    }
}

proof fn lemma_insert_multiset(s: Seq<(u64, usize)>, i: int, x: (u64, usize))
    requires
        0 <= i <= s.len(),
    ensures
        s.insert(i, x).to_multiset() =~= s.to_multiset().insert(x),
{
    let t = s.insert(i, x);
    assert(t.remove(i) =~= s);
    assert(t[i] == x);
    assert(t.to_multiset().remove(x) =~= s.to_multiset());
    assert(t.contains(x));
    assert(t.to_multiset().count(x) > 0);
    assert forall|y: (u64, usize)| #[trigger] t.to_multiset().count(y) == s.to_multiset().insert(x).count(y) by {
        if y == x {
            assert(t.to_multiset().remove(x).count(x) == t.to_multiset().count(x) - 1);
        } else {
            assert(t.to_multiset().remove(x).count(y) == t.to_multiset().count(y));
        }
    }
}

/// Sorts the pairs by key, equal keys by position.
pub fn sort_entries(e: &mut Vec<(u64, usize)>)
    ensures
        final(e)@.to_multiset() == old(e)@.to_multiset(),
        forall|a: int, b: int| 0 <= a < b < final(e)@.len() ==> entry_le(#[trigger] final(e)@[a], #[trigger] final(e)@[b]),
{
    let ghost orig = e@;
    let mut r: Vec<(u64, usize)> = Vec::new();
    let mut i: usize = 0;
    while i < e.len()
        invariant
            e@ == orig,
            i <= orig.len(),
            r@.to_multiset() == orig.take(i as int).to_multiset(),
            forall|a: int, b: int| 0 <= a < b < r@.len() ==> entry_le(#[trigger] r@[a], #[trigger] r@[b]),
        decreases e.len() - i,
    {
        let x = e[i];
        let mut pos: usize = 0;
        while pos < r.len() && (r[pos].0 < x.0 || (r[pos].0 == x.0 && r[pos].1 <= x.1))
            invariant
                pos <= r@.len(),
                forall|k: int| 0 <= k < pos ==> entry_le(#[trigger] r@[k], x),
            decreases r.len() - pos,
        {
            pos = pos + 1;
        }
        let ghost before = r@;
        proof {
            lemma_insert_multiset(before, pos as int, x);
            assert(orig.take(i + 1) =~= orig.take(i as int).push(x));
        }
        r.insert(pos, x);
        assert forall|a: int, b: int| 0 <= a < b < r@.len() implies entry_le(#[trigger] r@[a], #[trigger] r@[b]) by {
            if b < pos {
                assert(r@[a] == before[a] && r@[b] == before[b]);
            } else if b == pos {
                assert(r@[a] == before[a]);
            } else if a == pos {
                assert(r@[b] == before[b - 1]);
                if b - 1 > pos {
                    assert(entry_le(before[pos as int], before[b - 1]));
                }
            } else if a < pos {
                assert(r@[a] == before[a] && r@[b] == before[b - 1]);
            } else {
                assert(r@[a] == before[a - 1] && r@[b] == before[b - 1]);
            }
        }
        i = i + 1;
    }
    assert(orig.take(orig.len() as int) =~= orig);
    *e = r;
}

/// `a` sorts at or before `b` in the text order.
fn text_entry_before(texts: &[String], ascending: bool, a: (u64, usize), b: (u64, usize)) -> (r: bool)
    requires
        a.1 < texts@.len(),
        b.1 < texts@.len(),
    ensures
        r == text_entry_le(texts.deep_view(), ascending, a, b),
{
    let o = lex_compare(texts[a.1].as_str().as_bytes(), texts[b.1].as_str().as_bytes());
    assert(texts.deep_view()[a.1 as int] == texts@[a.1 as int]@);
    assert(texts.deep_view()[b.1 as int] == texts@[b.1 as int]@);
    match o {
        Order::Equal => a.1 <= b.1,
        Order::Less => ascending,
        Order::Greater => !ascending,
    }
}

proof fn lemma_text_equal(a: Seq<char>, b: Seq<char>)
    ensures
        (text_order(a, b) == Order::Equal) == (a == b),
{
    lemma_lex_order_equal(encode_utf8(a), encode_utf8(b));
    if encode_utf8(a) == encode_utf8(b) {
        vstd::utf8::encode_utf8_decode_utf8(a);
        vstd::utf8::encode_utf8_decode_utf8(b);
    }
}

/// The text order of pairs is total and transitive.
proof fn lemma_text_entry_order(texts: Seq<Seq<char>>, asc: bool, x: (u64, usize), y: (u64, usize), z: (u64, usize))
    ensures
        !text_entry_le(texts, asc, x, y) ==> text_entry_le(texts, asc, y, x),
        text_entry_le(texts, asc, x, y) && text_entry_le(texts, asc, y, z) ==> text_entry_le(texts, asc, x, z),
{
    let (tx, ty, tz) = (texts[x.1 as int], texts[y.1 as int], texts[z.1 as int]);
    lemma_lex_order_flip(encode_utf8(tx), encode_utf8(ty));
    lemma_lex_order_flip(encode_utf8(ty), encode_utf8(tz));
    lemma_lex_order_flip(encode_utf8(tx), encode_utf8(tz));
    lemma_text_equal(tx, ty);
    lemma_text_equal(ty, tz);
    lemma_text_equal(tx, tz);
    if text_order(tx, ty) == Order::Less && text_order(ty, tz) == Order::Less {
        lemma_lex_order_transitive(encode_utf8(tx), encode_utf8(ty), encode_utf8(tz), Order::Less);
    }
    if text_order(tx, ty) == Order::Greater && text_order(ty, tz) == Order::Greater {
        lemma_lex_order_transitive(encode_utf8(tx), encode_utf8(ty), encode_utf8(tz), Order::Greater);
    }
}

/// Sorts the pairs by the text at each pair's position, ascending or
/// descending, equal texts by increasing position.
pub fn sort_entries_by_text(e: &mut Vec<(u64, usize)>, texts: &[String], ascending: bool)
    requires
        forall|k: int| 0 <= k < old(e)@.len() ==> (#[trigger] old(e)@[k]).1 < texts@.len(),
    ensures
        final(e)@.to_multiset() == old(e)@.to_multiset(),
        forall|a: int, b: int|
            0 <= a < b < final(e)@.len() ==> text_entry_le(texts.deep_view(), ascending, #[trigger] final(e)@[a], #[trigger] final(e)@[b]),
{
    let ghost orig = e@;
    let ghost tv = texts.deep_view();
    let mut r: Vec<(u64, usize)> = Vec::new();
    let mut i: usize = 0;
    while i < e.len()
        invariant
            e@ == orig,
            tv == texts.deep_view(),
            forall|k: int| 0 <= k < orig.len() ==> (#[trigger] orig[k]).1 < texts@.len(),
            i <= orig.len(),
            forall|k: int| 0 <= k < r@.len() ==> (#[trigger] r@[k]).1 < texts@.len(),
            r@.to_multiset() == orig.take(i as int).to_multiset(),
            forall|a: int, b: int| 0 <= a < b < r@.len() ==> text_entry_le(tv, ascending, #[trigger] r@[a], #[trigger] r@[b]),
        decreases e.len() - i,
    {
        let x = e[i];
        assert(x == orig[i as int]);
        let mut pos: usize = 0;
        while pos < r.len() && text_entry_before(texts, ascending, r[pos], x)
            invariant
                tv == texts.deep_view(),
                x.1 < texts@.len(),
                forall|k: int| 0 <= k < r@.len() ==> (#[trigger] r@[k]).1 < texts@.len(),
                pos <= r@.len(),
                forall|k: int| 0 <= k < pos ==> text_entry_le(tv, ascending, #[trigger] r@[k], x),
            decreases r.len() - pos,
        {
            pos = pos + 1;
        }
        let ghost before = r@;
        proof {
            lemma_insert_multiset(before, pos as int, x);
            assert(orig.take(i + 1) =~= orig.take(i as int).push(x));
            if pos < before.len() {
                lemma_text_entry_order(tv, ascending, before[pos as int], x, x);
            }
        }
        r.insert(pos, x);
        assert forall|a: int, b: int| 0 <= a < b < r@.len() implies text_entry_le(tv, ascending, #[trigger] r@[a], #[trigger] r@[b]) by {
            if b < pos {
                assert(r@[a] == before[a] && r@[b] == before[b]);
            } else if b == pos {
                assert(r@[a] == before[a]);
            } else if a == pos {
                assert(r@[b] == before[b - 1]);
                if b - 1 > pos {
                    assert(text_entry_le(tv, ascending, before[pos as int], before[b - 1]));
                    lemma_text_entry_order(tv, ascending, x, before[pos as int], before[b - 1]);
                }
            } else if a < pos {
                assert(r@[a] == before[a] && r@[b] == before[b - 1]);
            } else {
                assert(r@[a] == before[a - 1] && r@[b] == before[b - 1]);
            }
        }
        assert forall|k: int| 0 <= k < r@.len() implies (#[trigger] r@[k]).1 < texts@.len() by {
            if k < pos {
                assert(r@[k] == before[k]);
            } else if k > pos {
                assert(r@[k] == before[k - 1]);
            }
        }
        i = i + 1;
    }
    assert(orig.take(orig.len() as int) =~= orig);
    *e = r;
}

} // verus!
