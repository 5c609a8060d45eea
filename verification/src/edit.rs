//! Editing the text of the search and filter prompts: typing, erasing and
//! moving the cursor, a byte offset kept on character boundaries.

use vstd::prelude::*;
use vstd::utf8::{encode_utf8, is_char_boundary, valid_utf8};
use crate::app::{
    boundary_after, boundary_at_or_before, clamp_char_boundary, next_char_boundary,
    prev_char_boundary,
};

verus! {

broadcast use vstd::utf8::encode_utf8_valid_utf8;

/// The UTF-8 bytes of a text.
pub open spec fn utf8(s: Seq<char>) -> Seq<u8> {
    encode_utf8(s)
}

/// `cursor` limited to the end of `b`.
pub open spec fn cursor_in(b: Seq<u8>, cursor: int) -> int {
    if cursor < b.len() {
        cursor
    } else {
        b.len() as int
    }
}

/// Where an edit happens: the cursor limited to the text and moved back to
/// the start of the character it points into.
pub open spec fn edit_point(b: Seq<u8>, cursor: int) -> int {
    boundary_at_or_before(b, cursor_in(b, cursor))
}

/// Bytes and cursor after typing `c`: the character goes in at the edit
/// point and the cursor moves past it.
pub open spec fn typed_char(b: Seq<u8>, cursor: int, c: char) -> (Seq<u8>, int) {
    let k = edit_point(b, cursor);
    (b.subrange(0, k) + utf8(seq![c]) + b.subrange(k, b.len() as int), k + utf8(seq![c]).len())
}

/// Bytes and cursor after backspace: the character before the edit point
/// goes, and the cursor moves to where it began; nothing happens at the
/// start.
pub open spec fn backspaced(b: Seq<u8>, cursor: int) -> (Seq<u8>, int) {
    if cursor <= 0 {
        (b, cursor)
    } else {
        let k = edit_point(b, cursor);
        let p = boundary_at_or_before(b, k - 1);
        (b.subrange(0, p) + b.subrange(k, b.len() as int), p)
    }
}

/// Bytes and cursor after delete: the character at the edit point goes
/// and the cursor stays on the edit point; nothing happens at the end.
pub open spec fn deleted(b: Seq<u8>, cursor: int) -> (Seq<u8>, int) {
    if cursor >= b.len() {
        (b, cursor)
    } else {
        let k = edit_point(b, cursor);
        (b.subrange(0, k) + b.subrange(boundary_after(b, k), b.len() as int), k)
    }
}

/// The cursor after moving left: to the start of the previous character.
pub open spec fn moved_left(b: Seq<u8>, cursor: int) -> int {
    if cursor <= 0 {
        cursor
    } else {
        boundary_at_or_before(b, cursor_in(b, cursor) - 1)
    }
}

/// The cursor after moving right: past the character at the edit point.
pub open spec fn moved_right(b: Seq<u8>, cursor: int) -> int {
    if cursor >= b.len() {
        cursor
    } else {
        boundary_after(b, edit_point(b, cursor))
    }
}

/// `String::insert`: puts `c` into `s` at byte `idx`, which must lie on a
/// character boundary (it panics elsewhere). The bytes of `c` land between
/// the bytes before `idx` and those from `idx` on.
#[verifier::external_body]
fn string_insert(s: &mut String, idx: usize, c: char)
    requires
        is_char_boundary(utf8(old(s)@), idx as int),
    ensures
        utf8(final(s)@) == utf8(old(s)@).subrange(0, idx as int) + utf8(seq![c]) + utf8(old(s)@).subrange(
            idx as int,
            utf8(old(s)@).len() as int,
        ),
{
    s.insert(idx, c);
}

/// `String::drain` with the drained characters dropped: removes bytes
/// `start..end` of `s`, both of which must lie on character boundaries (it
/// panics elsewhere).
#[verifier::external_body]
fn string_remove_range(s: &mut String, start: usize, end: usize)
    requires
        start <= end,
        is_char_boundary(utf8(old(s)@), start as int),
        is_char_boundary(utf8(old(s)@), end as int),
    ensures
        utf8(final(s)@) == utf8(old(s)@).subrange(0, start as int) + utf8(old(s)@).subrange(
            end as int,
            utf8(old(s)@).len() as int,
        ),
{
    s.drain(start..end);
}

/// The number of bytes `c` takes in UTF-8 (`char::len_utf8`).
pub fn utf8_len(c: char) -> (n: usize)
    ensures
        n == utf8(seq![c]).len(),
        1 <= n <= 4,
{
    let u = c as u32;
    assert(utf8(seq![c]) == vstd::utf8::encode_scalar(c as u32) + utf8(seq![c].drop_first()));
    assert(seq![c].drop_first() =~= Seq::<char>::empty());
    if u < 0x80 {
        1
    } else if u < 0x800 {
        2
    } else if u < 0x10000 {
        3
    } else {
        4
    }
}

/// `boundary_at_or_before` always lands on a character boundary.
proof fn lemma_boundary_before_is_boundary(b: Seq<u8>, i: int)
    requires
        valid_utf8(b),
    ensures
        is_char_boundary(b, boundary_at_or_before(b, i)),
    decreases i,
{
    if i > 0 && !is_char_boundary(b, i) {
        lemma_boundary_before_is_boundary(b, i - 1);
    }
}

/// A boundary is its own `boundary_at_or_before`.
proof fn lemma_boundary_before_fixed(b: Seq<u8>, k: int)
    requires
        is_char_boundary(b, k),
        0 <= k,
    ensures
        boundary_at_or_before(b, k) == k,
{
}

/// `boundary_after` lands on a character boundary.
proof fn lemma_boundary_after_is_boundary(b: Seq<u8>, i: int)
    requires
        valid_utf8(b),
        0 <= i < b.len(),
    ensures
        is_char_boundary(b, boundary_after(b, i)),
    decreases b.len() - i,
{
    vstd::utf8::is_char_boundary_start_end_of_seq(b);
    if !is_char_boundary(b, i + 1) && i + 1 < b.len() {
        lemma_boundary_after_is_boundary(b, i + 1);
    }
}

/// The bytes of one character are its scalar's encoding.
proof fn lemma_utf8_single(c: char)
    ensures
        utf8(seq![c]) == vstd::utf8::encode_scalar(c as u32),
        1 <= utf8(seq![c]).len() <= 4,
{
    reveal_with_fuel(encode_utf8, 2);
    assert(seq![c].drop_first() =~= Seq::<char>::empty());
    assert(utf8(seq![c]) =~= vstd::utf8::encode_scalar(c as u32));
}

/// The bytes of a concatenation are the concatenated bytes.
proof fn lemma_utf8_concat(a: Seq<char>, b: Seq<char>)
    ensures
        utf8(a + b) == utf8(a) + utf8(b),
    decreases a.len(),
{
    if a.len() == 0 {
        assert(a + b =~= b);
        assert(utf8(a) + utf8(b) =~= utf8(b));
    } else {
        lemma_utf8_concat(a.drop_first(), b);
        assert((a + b).drop_first() =~= a.drop_first() + b);
        assert((a + b)[0] == a[0]);
        assert(utf8(a + b) =~= utf8(a) + utf8(b));
    }
}

/// Past the bytes of `x`, the character boundaries of `x + y` are those of `y`.
proof fn lemma_boundary_shift(x: Seq<char>, y: Seq<char>, j: int)
    requires
        0 <= j,
    ensures
        is_char_boundary(utf8(x + y), utf8(x).len() + j) == is_char_boundary(utf8(y), j),
    decreases x.len(),
{
    if x.len() == 0 {
        assert(x + y =~= y);
    } else {
        let xy = x + y;
        let bytes = utf8(xy);
        vstd::utf8::encode_utf8_first_scalar(xy);
        assert(xy[0] == x[0]);
        assert(xy.drop_first() =~= x.drop_first() + y);
        assert(vstd::utf8::pop_first_scalar(bytes) =~= utf8(xy.drop_first()));
        lemma_boundary_shift(x.drop_first(), y, j);
        lemma_utf8_concat(x.drop_first(), y);
        assert(utf8(x).len() == vstd::utf8::encode_scalar(x[0] as u32).len() + utf8(x.drop_first()).len());
        assert(vstd::utf8::encode_scalar(x[0] as u32).len() >= 1);
    }
}

/// Inside the bytes of a single character there is no character boundary.
proof fn lemma_no_boundary_inside_char(c: char, r: Seq<char>, j: int)
    requires
        0 < j < utf8(seq![c]).len(),
    ensures
        !is_char_boundary(utf8(seq![c] + r), j),
{
    let cr = seq![c] + r;
    let bytes = utf8(cr);
    vstd::utf8::encode_utf8_first_scalar(cr);
    assert(cr[0] == c);
    assert(cr.drop_first() =~= r);
    lemma_utf8_single(c);
    lemma_utf8_concat(seq![c], r);
    assert(vstd::utf8::length_of_first_scalar(bytes) == utf8(seq![c]).len());
    assert(j <= bytes.len());
    assert(j - vstd::utf8::length_of_first_scalar(bytes) < 0);
    assert(valid_utf8(bytes));
    assert(vstd::utf8::pop_first_scalar(bytes) =~= utf8(r));
    assert(valid_utf8(utf8(r)));
    assert(!is_char_boundary(utf8(r), j - vstd::utf8::length_of_first_scalar(bytes)));
}

/// After typing, the cursor sits on the boundary right after the new
/// character, and the boundary before it is where the character went in.
proof fn lemma_typed_cursor_on_boundary(s: Seq<char>, cursor: int, c: char)
    ensures
        ({
            let (b1, k1) = typed_char(utf8(s), cursor, c);
            let k = edit_point(utf8(s), cursor);
            &&& valid_utf8(b1)
            &&& k1 == k + utf8(seq![c]).len()
            &&& 0 <= k < k1 <= b1.len()
            &&& is_char_boundary(b1, k1)
            &&& is_char_boundary(b1, k)
            &&& forall|m: int| k < m < k1 ==> !is_char_boundary(b1, m)
            &&& b1.subrange(0, k) == utf8(s).subrange(0, k)
            &&& b1.subrange(k1, b1.len() as int) == utf8(s).subrange(k, utf8(s).len() as int)
        }),
{
    let b = utf8(s);
    let k = edit_point(b, cursor);
    lemma_boundary_before_is_boundary(b, cursor_in(b, cursor));
    crate::app::lemma_boundary_at_or_before_range(b, cursor_in(b, cursor));
    vstd::utf8::valid_utf8_split(b, k);
    let front = b.subrange(0, k);
    let back = b.subrange(k, b.len() as int);
    let a = vstd::utf8::decode_utf8(front);
    let r = vstd::utf8::decode_utf8(back);
    vstd::utf8::decode_utf8_encode_utf8(front);
    vstd::utf8::decode_utf8_encode_utf8(back);
    let n = utf8(seq![c]).len() as int;
    let cr = seq![c] + r;
    lemma_utf8_concat(seq![c], r);
    lemma_utf8_concat(a, cr);
    let (b1, k1) = typed_char(b, cursor, c);
    assert(b1 =~= utf8(a + cr));
    lemma_utf8_single(c);
    lemma_boundary_shift(a, cr, n);
    lemma_boundary_shift(seq![c], r, 0);
    assert(is_char_boundary(utf8(r), 0));
    lemma_boundary_shift(a, cr, 0);
    assert(is_char_boundary(utf8(cr), 0));
    assert forall|m: int| k < m < k1 implies !is_char_boundary(b1, m) by {
        lemma_boundary_shift(a, cr, m - k);
        lemma_no_boundary_inside_char(c, r, m - k);
    }
    assert(b1.subrange(0, k) =~= b.subrange(0, k));
    assert(b1.subrange(k1, b1.len() as int) =~= b.subrange(k, b.len() as int));
}

/// Typing a character and erasing it again with backspace gives back the
/// text, with the cursor where the character went in.
pub proof fn typed_char_then_backspace(s: Seq<char>, cursor: int, c: char)
    ensures
        ({
            let (b1, k1) = typed_char(utf8(s), cursor, c);
            backspaced(b1, k1) == (utf8(s), edit_point(utf8(s), cursor))
        }),
{
    let b = utf8(s);
    let k = edit_point(b, cursor);
    lemma_typed_cursor_on_boundary(s, cursor, c);
    crate::app::lemma_boundary_at_or_before_range(b, cursor_in(b, cursor));
    let (b1, k1) = typed_char(b, cursor, c);
    lemma_boundary_before_fixed(b1, k1);
    assert(edit_point(b1, k1) == k1);
    crate::app::lemma_boundary_before_skips(b1, k, k1 - 1);
    let (b2, k2) = backspaced(b1, k1);
    assert(k2 == k);
    assert(b2 =~= b1.subrange(0, k) + b1.subrange(k1, b1.len() as int));
    assert(b1.subrange(0, k) == b.subrange(0, k));
    assert(b1.subrange(k1, b1.len() as int) == b.subrange(k, b.len() as int));
    assert(b.subrange(0, k) + b.subrange(k, b.len() as int) =~= b);
    assert(b2 =~= b);
}

/// Cutting a text at two character boundaries and joining the outer parts
/// leaves a boundary at the joint.
proof fn lemma_join_at_boundaries(b: Seq<u8>, p: int, k: int)
    requires
        valid_utf8(b),
        0 <= p <= k <= b.len(),
        is_char_boundary(b, p),
        is_char_boundary(b, k),
    ensures
        valid_utf8(b.subrange(0, p) + b.subrange(k, b.len() as int)),
        is_char_boundary(b.subrange(0, p) + b.subrange(k, b.len() as int), p),
{
    vstd::utf8::valid_utf8_split(b, p);
    vstd::utf8::valid_utf8_split(b, k);
    let front = b.subrange(0, p);
    let back = b.subrange(k, b.len() as int);
    let a = vstd::utf8::decode_utf8(front);
    let r = vstd::utf8::decode_utf8(back);
    vstd::utf8::decode_utf8_encode_utf8(front);
    vstd::utf8::decode_utf8_encode_utf8(back);
    lemma_utf8_concat(a, r);
    lemma_boundary_shift(a, r, 0);
    assert(front + back =~= utf8(a + r));
}

/// A cursor on a character boundary stays on one through every edit.
pub proof fn edits_keep_cursor_on_boundary(s: Seq<char>, cursor: int, c: char)
    requires
        is_char_boundary(utf8(s), cursor),
    ensures
        is_char_boundary(typed_char(utf8(s), cursor, c).0, typed_char(utf8(s), cursor, c).1),
        is_char_boundary(backspaced(utf8(s), cursor).0, backspaced(utf8(s), cursor).1),
        is_char_boundary(deleted(utf8(s), cursor).0, deleted(utf8(s), cursor).1),
        is_char_boundary(utf8(s), moved_left(utf8(s), cursor)),
        is_char_boundary(utf8(s), moved_right(utf8(s), cursor)),
{
    let b = utf8(s);
    assert(0 <= cursor <= b.len());
    assert(cursor_in(b, cursor) == cursor);
    lemma_boundary_before_fixed(b, cursor);
    assert(edit_point(b, cursor) == cursor);
    // Typing: the cursor ends right after the new character.
    lemma_typed_cursor_on_boundary(s, cursor, c);
    // Backspace and left: the previous boundary.
    if cursor > 0 {
        lemma_boundary_before_is_boundary(b, cursor - 1);
        crate::app::lemma_boundary_at_or_before_range(b, cursor - 1);
        lemma_join_at_boundaries(b, boundary_at_or_before(b, cursor - 1), cursor);
    }
    // Delete and right: the next boundary.
    if cursor < b.len() {
        lemma_boundary_after_is_boundary(b, cursor);
        crate::app::lemma_boundary_after_range(b, cursor);
        lemma_join_at_boundaries(b, cursor, boundary_after(b, cursor));
    }
}

/// The text of a search or filter prompt and the cursor in it, a byte
/// offset into the text.
pub struct TextInput {
    pub buffer: String,
    pub cursor: usize,
}

impl TextInput {
    /// A prompt holding `buffer`, with the cursor at its end.
    pub fn new(buffer: String) -> (r: TextInput)
        ensures
            r.buffer@ == buffer@,
            r.cursor == utf8(buffer@).len(),
    {
        let cursor = buffer.as_str().as_bytes().len();
        TextInput { buffer, cursor }
    }

    /// Type `c` at the cursor.
    pub fn input_char(&mut self, c: char)
        requires
            utf8(old(self).buffer@).len() + 4 <= usize::MAX,
        ensures
            (utf8(final(self).buffer@), final(self).cursor as int) == typed_char(
                utf8(old(self).buffer@),
                old(self).cursor as int,
                c,
            ),
    {
        let ghost b = utf8(self.buffer@);
        let k = clamp_char_boundary(self.buffer.as_str(), self.cursor);
        proof {
            lemma_boundary_before_is_boundary(b, cursor_in(b, old(self).cursor as int));
            crate::app::lemma_boundary_at_or_before_range(b, cursor_in(b, old(self).cursor as int));
        }
        string_insert(&mut self.buffer, k, c);
        self.cursor = k + utf8_len(c);
    }

    /// Erase the character before the cursor.
    pub fn input_backspace(&mut self)
        ensures
            (utf8(final(self).buffer@), final(self).cursor as int) == backspaced(
                utf8(old(self).buffer@),
                old(self).cursor as int,
            ),
    {
        if self.cursor > 0 {
            let ghost b = utf8(self.buffer@);
            let k = clamp_char_boundary(self.buffer.as_str(), self.cursor);
            proof {
                lemma_boundary_before_is_boundary(b, cursor_in(b, old(self).cursor as int));
                crate::app::lemma_boundary_at_or_before_range(b, cursor_in(b, old(self).cursor as int));
            }
            let p = prev_char_boundary(self.buffer.as_str(), k);
            proof {
                lemma_boundary_before_is_boundary(b, k - 1);
                crate::app::lemma_boundary_at_or_before_range(b, k - 1);
            }
            string_remove_range(&mut self.buffer, p, k);
            self.cursor = p;
        }
    }

    /// Erase the character at the cursor.
    pub fn input_delete(&mut self)
        ensures
            (utf8(final(self).buffer@), final(self).cursor as int) == deleted(
                utf8(old(self).buffer@),
                old(self).cursor as int,
            ),
    {
        if self.cursor < self.buffer.as_str().as_bytes().len() {
            let ghost b = utf8(self.buffer@);
            let k = clamp_char_boundary(self.buffer.as_str(), self.cursor);
            proof {
                lemma_boundary_before_is_boundary(b, cursor_in(b, old(self).cursor as int));
                crate::app::lemma_boundary_at_or_before_range(b, cursor_in(b, old(self).cursor as int));
                lemma_boundary_before_fixed(b, k as int);
            }
            self.cursor = k;
            let next = next_char_boundary(self.buffer.as_str(), k);
            proof {
                lemma_boundary_after_is_boundary(b, k as int);
                crate::app::lemma_boundary_after_range(b, k as int);
            }
            string_remove_range(&mut self.buffer, k, next);
        }
    }

    /// Move the cursor to the start of the previous character.
    pub fn input_left(&mut self)
        ensures
            final(self).buffer@ == old(self).buffer@,
            final(self).cursor == moved_left(utf8(old(self).buffer@), old(self).cursor as int),
    {
        if self.cursor > 0 {
            self.cursor = prev_char_boundary(self.buffer.as_str(), self.cursor);
        }
    }

    /// Move the cursor past the character at it.
    pub fn input_right(&mut self)
        ensures
            final(self).buffer@ == old(self).buffer@,
            final(self).cursor == moved_right(utf8(old(self).buffer@), old(self).cursor as int),
    {
        if self.cursor < self.buffer.as_str().as_bytes().len() {
            self.cursor = next_char_boundary(self.buffer.as_str(), self.cursor);
        }
    }
}

} // verus!
