//! Byte-sequence helpers shared by the parsers: splitting, searching,
//! comparing, and the UTF-8 bridge between `&str` and its bytes.

use vstd::prelude::*;
use vstd::utf8::*;

verus! {

broadcast use vstd::utf8::encode_utf8_decode_utf8;

/// Result of a three-way comparison.
#[derive(Debug, Clone, Copy, PartialEq, Eq)]
pub enum Order {
    Less,
    Equal,
    Greater,
}

impl Order {
    /// The same comparison with its operands swapped.
    pub open spec fn flip(self) -> Order {
        match self {
            Order::Less => Order::Greater,
            Order::Equal => Order::Equal,
            Order::Greater => Order::Less,
        }
    }

    pub fn is_equal(self) -> (r: bool)
        ensures
            r == (self == Order::Equal),
    {
        match self {
            Order::Equal => true,
            _ => false,
        }
    }
}

/// Three-way comparison of naturals.
pub open spec fn order_nat(a: nat, b: nat) -> Order {
    if a < b {
        Order::Less
    } else if a == b {
        Order::Equal
    } else {
        Order::Greater
    }
}

pub fn order_usize(a: usize, b: usize) -> (r: Order)
    ensures
        r == order_nat(a as nat, b as nat),
{
    if a < b {
        Order::Less
    } else if a == b {
        Order::Equal
    } else {
        Order::Greater
    }
}

/// Lexicographic byte order (the order of `str::cmp`).
pub open spec fn lex_order(a: Seq<u8>, b: Seq<u8>) -> Order
    decreases a.len(),
{
    if a.len() == 0 && b.len() == 0 {
        Order::Equal
    } else if a.len() == 0 {
        Order::Less
    } else if b.len() == 0 {
        Order::Greater
    } else if a[0] < b[0] {
        Order::Less
    } else if a[0] > b[0] {
        Order::Greater
    } else {
        lex_order(a.drop_first(), b.drop_first())
    }
}

pub proof fn lemma_lex_order_flip(a: Seq<u8>, b: Seq<u8>)
    ensures
        lex_order(b, a) == lex_order(a, b).flip(),
    decreases a.len(),
{
    if a.len() > 0 && b.len() > 0 && a[0] == b[0] {
        lemma_lex_order_flip(a.drop_first(), b.drop_first());
    }
}

pub proof fn lemma_lex_order_equal(a: Seq<u8>, b: Seq<u8>)
    ensures
        (lex_order(a, b) == Order::Equal) == (a == b),
    decreases a.len(),
{
    if a.len() > 0 && b.len() > 0 && a[0] == b[0] {
        lemma_lex_order_equal(a.drop_first(), b.drop_first());
        if a.drop_first() == b.drop_first() {
            assert(a =~= seq![a[0]] + a.drop_first());
            assert(b =~= seq![b[0]] + b.drop_first());
        }
    }
    if a == b && a.len() > 0 {
        assert(a.drop_first() == b.drop_first());
    }
    if a.len() == 0 && b.len() == 0 {
        assert(a =~= b);
    }
}

pub proof fn lemma_lex_order_transitive(a: Seq<u8>, b: Seq<u8>, c: Seq<u8>, o: Order)
    requires
        o != Order::Equal,
        lex_order(a, b) == o,
        lex_order(b, c) == o,
    ensures
        lex_order(a, c) == o,
    decreases a.len(),
{
    if a.len() > 0 && b.len() > 0 && c.len() > 0 && a[0] == b[0] && b[0] == c[0] {
        lemma_lex_order_transitive(a.drop_first(), b.drop_first(), c.drop_first(), o);
    }
}

/// A proper prefix sorts first, as with `str::cmp`: `a` comes before
/// `a` followed by any non-empty `b`.
pub proof fn lex_order_prefix_first(a: Seq<u8>, b: Seq<u8>)
    requires
        b.len() > 0,
    ensures
        lex_order(a, a + b) == Order::Less,
        lex_order(a + b, a) == Order::Greater,
    decreases a.len(),
{
    if a.len() == 0 {
        assert(a + b =~= b);
    } else {
        assert((a + b).drop_first() =~= a.drop_first() + b);
        assert((a + b)[0] == a[0]);
        lex_order_prefix_first(a.drop_first(), b);
    }
}

/// After a common prefix, the first differing byte decides, whatever
/// follows it.
pub proof fn lex_order_first_difference(a: Seq<u8>, x: u8, y: u8, c: Seq<u8>, d: Seq<u8>)
    requires
        x < y,
    ensures
        lex_order(a.push(x) + c, a.push(y) + d) == Order::Less,
    decreases a.len(),
{
    let l = a.push(x) + c;
    let r = a.push(y) + d;
    if a.len() == 0 {
        assert(l[0] == x && r[0] == y);
    } else {
        assert(l[0] == a[0] && r[0] == a[0]);
        assert(l.drop_first() =~= a.drop_first().push(x) + c);
        assert(r.drop_first() =~= a.drop_first().push(y) + d);
        lex_order_first_difference(a.drop_first(), x, y, c, d);
    }
}

/// Lexicographic comparison of two byte slices.
pub fn lex_compare(a: &[u8], b: &[u8]) -> (r: Order)
    ensures
        r == lex_order(a@, b@),
{
    let mut i: usize = 0;
    assert(a@.skip(0) =~= a@);
    assert(b@.skip(0) =~= b@);
    while i < a.len() && i < b.len()
        invariant
            i <= a.len(),
            i <= b.len(),
            lex_order(a@, b@) == lex_order(a@.skip(i as int), b@.skip(i as int)),
        decreases a.len() - i,
    {
        if a[i] < b[i] {
            return Order::Less;
        }
        if a[i] > b[i] {
            return Order::Greater;
        }
        assert(a@.skip(i as int).drop_first() =~= a@.skip(i + 1));
        assert(b@.skip(i as int).drop_first() =~= b@.skip(i + 1));
        i = i + 1;
    }
    if a.len() == b.len() {
        Order::Equal
    } else if i == a.len() {
        Order::Less
    } else {
        Order::Greater
    }
}

/// Byte-wise equality of two slices.
pub fn bytes_eq(a: &[u8], b: &[u8]) -> (r: bool)
    ensures
        r == (a@ == b@),
{
    let c = lex_compare(a, b);
    proof {
        lemma_lex_order_equal(a@, b@);
    }
    c.is_equal()
}

/// `str` equality, decided on the UTF-8 bytes.
pub fn str_eq(a: &str, b: &str) -> (r: bool)
    ensures
        r == (a@ == b@),
{
    let r = bytes_eq(a.as_bytes(), b.as_bytes());
    proof {
        if encode_utf8(a@) == encode_utf8(b@) {
            assert(decode_utf8(encode_utf8(a@)) == a@);
            assert(decode_utf8(encode_utf8(b@)) == b@);
        }
    }
    r
}

/// Pieces of `s` between the occurrences of `sep` (the pieces of
/// `str::split`): there is always at least one piece.
pub open spec fn split_on(s: Seq<u8>, sep: u8) -> Seq<Seq<u8>>
    decreases s.len(),
{
    if s.len() == 0 {
        seq![Seq::<u8>::empty()]
    } else {
        let r = split_on(s.drop_last(), sep);
        if s.last() == sep {
            r.push(Seq::<u8>::empty())
        } else {
            r.update(r.len() - 1, r.last().push(s.last()))
        }
    }
}

pub proof fn lemma_split_on_nonempty(s: Seq<u8>, sep: u8)
    ensures
        split_on(s, sep).len() >= 1,
    decreases s.len(),
{
    if s.len() > 0 {
        lemma_split_on_nonempty(s.drop_last(), sep);
    }
}

/// `split_on` of a sequence without separator is that sequence alone.
pub proof fn lemma_split_on_no_sep(s: Seq<u8>, sep: u8)
    requires
        !s.contains(sep),
    ensures
        split_on(s, sep) == seq![s],
    decreases s.len(),
{
    if s.len() > 0 {
        assert(!s.drop_last().contains(sep)) by {
            if s.drop_last().contains(sep) {
                let k = choose|k: int| 0 <= k < s.drop_last().len() && s.drop_last()[k] == sep;
                assert(s[k] == sep);
            }
        }
        lemma_split_on_no_sep(s.drop_last(), sep);
        assert(s.last() != sep) by {
            assert(s[s.len() - 1] == s.last());
        }
        assert(s.drop_last().push(s.last()) =~= s);
        assert(split_on(s, sep) =~= seq![s]);
    } else {
        assert(s =~= Seq::<u8>::empty());
    }
}

/// Split a byte slice on every occurrence of `sep`.
pub fn split_bytes(s: &[u8], sep: u8) -> (r: Vec<Vec<u8>>)
    ensures
        r.deep_view() == split_on(s@, sep),
{
    let mut pieces: Vec<Vec<u8>> = Vec::new();
    let mut cur: Vec<u8> = Vec::new();
    let mut i: usize = 0;
    while i < s.len()
        invariant
            i <= s.len(),
            pieces.deep_view().push(cur@) == split_on(s@.take(i as int), sep),
        decreases s.len() - i,
    {
        let ghost prev = s@.take(i as int);
        assert(s@.take(i + 1).drop_last() =~= prev);
        assert(s@.take(i + 1).last() == s[i as int]);
        if s[i] == sep {
            let ghost old_cur = cur@;
            let ghost old_dv = pieces.deep_view();
            let done = cur;
            assert(done.deep_view() =~= old_cur);
            pieces.push(done);
            cur = Vec::new();
            assert(pieces.deep_view() =~= old_dv.push(old_cur));
            assert(pieces.deep_view() =~= split_on(prev, sep));
            assert(pieces.deep_view().push(cur@) =~= split_on(prev, sep).push(Seq::<u8>::empty()));
        } else {
            let ghost old = pieces.deep_view();
            cur.push(s[i]);
            assert(pieces.deep_view() =~= old);
            assert(pieces.deep_view().push(cur@) =~= split_on(prev, sep).update(
                split_on(prev, sep).len() - 1,
                split_on(prev, sep).last().push(s[i as int]),
            ));
        }
        i = i + 1;
    }
    assert(s@.take(s.len() as int) =~= s@);
    let ghost old_dv = pieces.deep_view();
    let ghost last = cur@;
    assert(cur.deep_view() =~= last);
    pieces.push(cur);
    assert(pieces.deep_view() =~= old_dv.push(last));
    pieces
}

/// Index of the first occurrence of `b` in `s`.
pub open spec fn find_first(s: Seq<u8>, b: u8) -> Option<int>
    decreases s.len(),
{
    if s.len() == 0 {
        None
    } else {
        match find_first(s.drop_last(), b) {
            Some(i) => Some(i),
            None => if s.last() == b {
                Some(s.len() - 1)
            } else {
                None
            },
        }
    }
}

pub proof fn lemma_find_first(s: Seq<u8>, b: u8)
    ensures
        match find_first(s, b) {
            Some(i) => 0 <= i < s.len() && s[i] == b && !s.take(i).contains(b),
            None => !s.contains(b),
        },
    decreases s.len(),
{
    if s.len() > 0 {
        lemma_find_first(s.drop_last(), b);
        match find_first(s.drop_last(), b) {
            Some(i) => {
                assert(s.take(i) =~= s.drop_last().take(i));
            },
            None => {
                if s.last() == b {
                    assert(s.take(s.len() - 1) =~= s.drop_last());
                } else {
                    assert forall|k: int| 0 <= k < s.len() implies s[k] != b by {
                        if k < s.len() - 1 {
                            assert(s.drop_last()[k] == s[k]);
                        }
                    }
                }
            },
        }
    }
}

/// Position of the first `b` in `s`, if any.
pub fn find_byte(s: &[u8], b: u8) -> (r: Option<usize>)
    ensures
        match r {
            Some(i) => find_first(s@, b) == Some(i as int) && i < s.len() && s@[i as int] == b,
            None => find_first(s@, b) is None,
        },
{
    proof {
        lemma_find_first(s@, b);
    }
    let mut i: usize = 0;
    while i < s.len()
        invariant
            i <= s.len(),
            find_first(s@.take(i as int), b) is None,
        decreases s.len() - i,
    {
        assert(s@.take(i + 1).drop_last() =~= s@.take(i as int));
        if s[i] == b {
            assert(find_first(s@.take(i + 1), b) == Some(i as int));
            proof {
                lemma_find_first_prefix(s@, b, i + 1);
            }
            return Some(i);
        }
        i = i + 1;
    }
    assert(s@.take(s.len() as int) =~= s@);
    None
}

/// A first occurrence inside a prefix is the first occurrence of the whole.
pub proof fn lemma_find_first_prefix(s: Seq<u8>, b: u8, n: int)
    requires
        0 <= n <= s.len(),
        find_first(s.take(n), b) is Some,
    ensures
        find_first(s, b) == find_first(s.take(n), b),
    decreases s.len() - n,
{
    if n < s.len() {
        assert(s.take(n + 1).drop_last() =~= s.take(n));
        lemma_find_first_prefix(s, b, n + 1);
    } else {
        assert(s.take(n) =~= s);
    }
}

/// Copy of `s[lo..hi]`.
pub fn copy_range(s: &[u8], lo: usize, hi: usize) -> (r: Vec<u8>)
    requires
        lo <= hi <= s.len(),
    ensures
        r@ == s@.subrange(lo as int, hi as int),
{
    let mut r: Vec<u8> = Vec::new();
    let mut i = lo;
    while i < hi
        invariant
            lo <= i <= hi <= s.len(),
            r@ == s@.subrange(lo as int, i as int),
        decreases hi - i,
    {
        r.push(s[i]);
        assert(r@ =~= s@.subrange(lo as int, i + 1));
        i = i + 1;
    }
    r
}

/// ASCII decimal digit.
pub open spec fn is_digit(b: u8) -> bool {
    0x30 <= b <= 0x39
}

/// ASCII letter or digit.
pub open spec fn is_alnum(b: u8) -> bool {
    is_digit(b) || (0x41 <= b <= 0x5a) || (0x61 <= b <= 0x7a)
}

/// Every byte is an ASCII digit (true for the empty sequence).
pub open spec fn all_digits(s: Seq<u8>) -> bool {
    forall|i: int| 0 <= i < s.len() ==> is_digit(#[trigger] s[i])
}

pub fn is_all_digits(s: &[u8]) -> (r: bool)
    ensures
        r == all_digits(s@),
{
    let mut i: usize = 0;
    while i < s.len()
        invariant
            i <= s.len(),
            forall|k: int| 0 <= k < i ==> is_digit(#[trigger] s@[k]),
        decreases s.len() - i,
    {
        if !(0x30 <= s[i] && s[i] <= 0x39) {
            return false;
        }
        i = i + 1;
    }
    true
}

} // verus!
