use vstd::prelude::*;
use vstd::utf8::{encode_scalar, encode_utf8};

use crate::text::{is_white, push_char, push_str, white};
use crate::utf8_pos::{
    boundary, byte_of, byte_offset, char_index, char_index_at, lemma_boundary_le, lemma_byte_of_boundary,
    lemma_byte_of_bounds, lemma_byte_of_mono, lemma_char_index, lemma_next_boundary,
    lemma_prev_boundary, lemma_utf8_concat, next_boundary, prev_boundary, split_str, utf8,
};

verus! {

/// Moving left from `p` while the character before it is (or is not, by
/// `ws`) white space.
pub open spec fn back_while(s: Seq<char>, p: int, ws: bool) -> int
    decreases p,
{
    if 0 < p <= s.len() && is_white(s[p - 1]) == ws {
        back_while(s, p - 1, ws)
    } else {
        p
    }
}

/// Moving left from `p` while the character at it is (or is not, by `ws`)
/// white space.
pub open spec fn back_at(s: Seq<char>, p: int, ws: bool) -> int
    decreases p,
{
    if 0 < p < s.len() && is_white(s[p]) == ws {
        back_at(s, p - 1, ws)
    } else {
        p
    }
}

/// Moving right from `p` while the character at it is (or is not, by `ws`)
/// white space.
pub open spec fn fwd_while(s: Seq<char>, p: int, ws: bool) -> int
    decreases s.len() - p,
{
    if 0 <= p < s.len() && is_white(s[p]) == ws {
        fwd_while(s, p + 1, ws)
    } else {
        p
    }
}

/// Start of the word at or before `p`.
pub open spec fn word_start(s: Seq<char>, p: int) -> int {
    back_while(s, back_while(s, p, true), false)
}

/// End of the word at or after `p`.
pub open spec fn word_end(s: Seq<char>, p: int) -> int {
    fwd_while(s, fwd_while(s, p, true), false)
}

/// Where a word erased backwards from `p` (with `p > 0`) begins: step onto
/// the character before `p`, pass white space, pass the word, and step back
/// onto the word when a space was reached.
pub open spec fn erase_start(s: Seq<char>, p: int) -> int {
    let q = back_at(s, back_at(s, p - 1, true), false);
    if q > 0 && is_white(s[q]) { q + 1 } else { q }
}

/// Where normalising puts a cursor: the end when past it, else the nearest
/// character boundary at or after it.
pub open spec fn normalized(s: Seq<char>, c: int) -> int {
    if c > utf8(s).len() {
        utf8(s).len() as int
    } else {
        next_boundary(s, c)
    }
}

/// Text being edited, and a cursor counted in bytes of its UTF-8 form.
pub struct InputState {
    cursor: usize,
    input: String,
}

impl InputState {
    pub closed spec fn spec_cursor(&self) -> nat {
        self.cursor as nat
    }

    pub closed spec fn spec_text(&self) -> Seq<char> {
        self.input@
    }

    /// The text as UTF-8 bytes.
    pub open spec fn spec_utf8(&self) -> Seq<u8> {
        utf8(self.spec_text())
    }

    /// The byte length of the text fits in a `usize`.
    pub open spec fn fits(&self) -> bool {
        self.spec_utf8().len() <= usize::MAX
    }

    pub fn new(input: String) -> (r: InputState)
        ensures
            r.spec_text() == input@,
            r.spec_cursor() == 0,
    {
        InputState { cursor: 0, input }
    }

    pub fn set_cursor(&mut self, pos: usize)
        ensures
            final(self).spec_text() == old(self).spec_text(),
            final(self).spec_cursor() == pos,
    {
        self.cursor = pos;
    }

    pub fn cursor(&self) -> (r: usize)
        ensures
            r == self.spec_cursor(),
    {
        self.cursor
    }

    pub fn as_str(&self) -> (r: &str)
        ensures
            r@ == self.spec_text(),
    {
        self.input.as_str()
    }

    /// Length of the text in bytes.
    pub fn len(&self) -> (r: usize)
        requires
            self.fits(),
        ensures
            r == self.spec_utf8().len(),
    {
        self.input.as_str().len()
    }

    /// Length of the text in characters.
    pub fn char_len(&self) -> (r: usize)
        ensures
            r == self.spec_text().len(),
    {
        self.input.as_str().unicode_len()
    }

    /// The text, giving up the editor.
    pub fn into_string(self) -> (r: String)
        ensures
            r@ == self.spec_text(),
    {
        self.input
    }

    /// Brings the cursor to the end when past it, else forward to the
    /// nearest character boundary.
    pub fn normalize_cursor(&mut self)
        requires
            old(self).fits(),
        ensures
            final(self).spec_text() == old(self).spec_text(),
            final(self).spec_cursor() == normalized(old(self).spec_text(), old(self).spec_cursor() as int),
            boundary(final(self).spec_text(), final(self).spec_cursor() as int),
    {
        let len = self.input.as_str().len();
        proof {
            if self.cursor <= len {
                lemma_next_boundary(self.input@, self.cursor as int);
            }
            lemma_next_boundary(self.input@, len as int);
        }
        if self.cursor > len {
            self.cursor = len;
        } else if !self.input.as_str().is_char_boundary(self.cursor) {
            let mut p = self.cursor;
            while p < len && !self.input.as_str().is_char_boundary(p)
                invariant
                    self.cursor <= p <= len,
                    len == utf8(self.input@).len(),
                    next_boundary(self.input@, p as int) == next_boundary(self.input@, self.cursor as int),
                decreases len - p,
            {
                p = p + 1;
            }
            self.cursor = p;
        }
    }

    /// Replaces the text by `a`, then `b`, then `c`.
    fn rebuild(&mut self, a: &str, b: &str, c: &str)
        ensures
            final(self).spec_text() == a@ + b@ + c@,
            final(self).spec_cursor() == old(self).spec_cursor(),
    {
        let mut s = String::from_str(a);
        push_str(&mut s, b);
        push_str(&mut s, c);
        self.input = s;
    }

    /// Puts `v` in at byte offset `at`, a boundary.
    fn insert_at(&mut self, at: usize, v: &str)
        requires
            boundary(old(self).spec_text(), at as int),
        ensures
            final(self).spec_utf8() == old(self).spec_utf8().subrange(0, at as int) + utf8(v@)
                + old(self).spec_utf8().subrange(at as int, old(self).spec_utf8().len() as int),
            boundary(final(self).spec_text(), at + utf8(v@).len()),
            final(self).spec_cursor() == old(self).spec_cursor(),
    {
        let text = self.input.clone();
        let (a, r) = split_str(text.as_str(), at);
        self.rebuild(a, v, r);
        proof {
            lemma_utf8_concat(a@, v@);
            lemma_utf8_concat(a@ + v@, r@);
            let n = self.input@;
            assert(n.take((a@ + v@).len() as int) =~= a@ + v@);
            lemma_byte_of_boundary(n, (a@ + v@).len() as int);
            lemma_byte_of_bounds(text@, a@.len() as int);
        }
    }

    /// Takes out the bytes in `[x, y)`, both boundaries.
    fn remove_bytes(&mut self, x: usize, y: usize)
        requires
            x <= y,
            boundary(old(self).spec_text(), x as int),
            boundary(old(self).spec_text(), y as int),
        ensures
            final(self).spec_utf8() == old(self).spec_utf8().subrange(0, x as int)
                + old(self).spec_utf8().subrange(y as int, old(self).spec_utf8().len() as int),
            final(self).spec_cursor() == old(self).spec_cursor(),
    {
        let text = self.input.clone();
        let (a, _) = split_str(text.as_str(), x);
        let (_, r) = split_str(text.as_str(), y);
        self.rebuild(a, "", r);
        proof {
            reveal_strlit("");
            assert(a@ + ""@ + r@ =~= a@ + r@);
            lemma_utf8_concat(a@, r@);
        }
    }

    /// Inserts `value` at the normalised cursor and moves the cursor after it.
    pub fn push_str(&mut self, value: &str)
        requires
            old(self).fits(),
            old(self).spec_utf8().len() + utf8(value@).len() <= usize::MAX,
        ensures
            ({
                let u = old(self).spec_utf8();
                let c = normalized(old(self).spec_text(), old(self).spec_cursor() as int);
                &&& final(self).spec_utf8() == u.subrange(0, c) + utf8(value@) + u.subrange(c, u.len() as int)
                &&& final(self).spec_cursor() == c + utf8(value@).len()
            }),
    {
        self.normalize_cursor();
        if self.input.as_str().is_char_boundary(self.cursor) {
            let n = value.len();
            let ghost c = self.cursor;
            proof {
                lemma_next_boundary(old(self).spec_text(), 0);
                assert(c <= old(self).spec_utf8().len()) by {
                    if old(self).spec_cursor() <= old(self).spec_utf8().len() {
                        lemma_next_boundary(old(self).spec_text(), old(self).spec_cursor() as int);
                    }
                }
            }
            self.insert_at(self.cursor, value);
            self.cursor = self.cursor + n;
            self.normalize_cursor();
        }
    }

    /// One character left: the nearest boundary before the cursor.
    pub fn left(&mut self)
        ensures
            final(self).spec_text() == old(self).spec_text(),
            final(self).spec_cursor() == (if old(self).spec_cursor() == 0 {
                0
            } else {
                prev_boundary(old(self).spec_text(), old(self).spec_cursor() - 1)
            }),
    {
        if self.cursor == 0 {
            return;
        }
        let mut p = self.cursor - 1;
        while p > 0 && !self.input.as_str().is_char_boundary(p)
            invariant
                p < self.cursor,
                prev_boundary(self.input@, p as int) == prev_boundary(self.input@, self.cursor - 1),
            decreases p,
        {
            p = p - 1;
        }
        self.cursor = p;
    }

    /// One character right, unless at or past the end.
    pub fn right(&mut self)
        requires
            old(self).fits(),
        ensures
            final(self).spec_text() == old(self).spec_text(),
            final(self).spec_cursor() == (if old(self).spec_cursor() >= old(self).spec_utf8().len() {
                old(self).spec_cursor() as int
            } else {
                next_boundary(old(self).spec_text(), old(self).spec_cursor() + 1int)
            }),
    {
        let len = self.input.as_str().len();
        if self.cursor >= len {
            return;
        }
        let mut p = self.cursor + 1;
        while p < len && !self.input.as_str().is_char_boundary(p)
            invariant
                self.cursor < p <= len,
                len == utf8(self.input@).len(),
                next_boundary(self.input@, p as int) == next_boundary(self.input@, self.cursor + 1),
            decreases len - p,
        {
            p = p + 1;
        }
        self.cursor = p;
    }

    /// Inserts a character at the cursor and moves past it; nothing happens
    /// when the cursor is not on a character boundary.
    pub fn push(&mut self, chr: char)
        requires
            old(self).fits(),
            old(self).spec_utf8().len() + 4 <= usize::MAX,
        ensures
            ({
                let u = old(self).spec_utf8();
                let c = old(self).spec_cursor() as int;
                if boundary(old(self).spec_text(), c) {
                    &&& final(self).spec_utf8() == u.subrange(0, c) + utf8(seq![chr]) + u.subrange(c, u.len() as int)
                    &&& final(self).spec_cursor() == c + utf8(seq![chr]).len()
                } else {
                    &&& final(self).spec_text() == old(self).spec_text()
                    &&& final(self).spec_cursor() == old(self).spec_cursor()
                }
            }),
    {
        if self.input.as_str().is_char_boundary(self.cursor) {
            let mut one = String::new();
            push_char(&mut one, chr);
            proof {
                assert(one@ =~= seq![chr]);
                assert(utf8(seq![chr]).len() <= 4) by {
                    assert(seq![chr].drop_first() =~= Seq::<char>::empty());
                    assert(encode_utf8(seq![chr]) == encode_scalar(chr as u32) + encode_utf8(
                        Seq::<char>::empty(),
                    ));
                    assert(encode_scalar(chr as u32).len() <= 4);
                }
                lemma_boundary_le(self.input@, self.cursor as int);
            }
            let n = one.as_str().len();
            self.insert_at(self.cursor, one.as_str());
            self.cursor = self.cursor + n;
        }
    }

    /// Erases the character before the cursor.
    pub fn backspace(&mut self)
        requires
            old(self).fits(),
            boundary(old(self).spec_text(), old(self).spec_cursor() as int),
        ensures
            ({
                let u = old(self).spec_utf8();
                let c = old(self).spec_cursor() as int;
                if c == 0 {
                    &&& final(self).spec_text() == old(self).spec_text()
                    &&& final(self).spec_cursor() == 0
                } else {
                    let st = prev_boundary(old(self).spec_text(), c - 1);
                    &&& final(self).spec_utf8() == u.subrange(0, st) + u.subrange(c, u.len() as int)
                    &&& final(self).spec_cursor() == st
                }
            }),
    {
        if self.cursor == 0 {
            return;
        }
        let mut start = self.cursor - 1;
        while start > 0 && !self.input.as_str().is_char_boundary(start)
            invariant
                start < self.cursor,
                prev_boundary(self.input@, start as int) == prev_boundary(self.input@, self.cursor - 1),
            decreases start,
        {
            start = start - 1;
        }
        proof {
            lemma_prev_boundary(self.input@, self.cursor - 1);
        }
        self.remove_bytes(start, self.cursor);
        self.cursor = start;
    }

    /// Erases the character at the cursor.
    pub fn delete(&mut self)
        requires
            old(self).fits(),
            old(self).spec_cursor() >= old(self).spec_utf8().len() || boundary(
                old(self).spec_text(),
                old(self).spec_cursor() as int,
            ),
        ensures
            final(self).spec_cursor() == old(self).spec_cursor(),
            ({
                let u = old(self).spec_utf8();
                let c = old(self).spec_cursor() as int;
                if c >= u.len() {
                    final(self).spec_text() == old(self).spec_text()
                } else {
                    let e = next_boundary(old(self).spec_text(), c + 1);
                    final(self).spec_utf8() == u.subrange(0, c) + u.subrange(e, u.len() as int)
                }
            }),
    {
        let len = self.input.as_str().len();
        if self.cursor >= len {
            return;
        }
        let mut end = self.cursor + 1;
        while end < len && !self.input.as_str().is_char_boundary(end)
            invariant
                self.cursor < end <= len,
                len == utf8(self.input@).len(),
                next_boundary(self.input@, end as int) == next_boundary(self.input@, self.cursor + 1),
            decreases len - end,
        {
            end = end + 1;
        }
        proof {
            lemma_next_boundary(self.input@, self.cursor + 1);
        }
        self.remove_bytes(self.cursor, end);
    }

    /// Cursor moved to the start of the word at or before it.
    pub fn move_left_word(&mut self)
        requires
            old(self).fits(),
            boundary(old(self).spec_text(), old(self).spec_cursor() as int),
        ensures
            final(self).spec_text() == old(self).spec_text(),
            final(self).spec_cursor() == byte_of(
                old(self).spec_text(),
                word_start(old(self).spec_text(), char_index(old(self).spec_text(), old(self).spec_cursor() as int)),
            ),
    {
        if self.cursor == 0 {
            proof {
                assert(self.input@.take(0) =~= Seq::<char>::empty());
                lemma_char_index(self.input@, 0);
            }
            return;
        }
        let chars = self.input.as_str();
        let i = char_index_at(chars, self.cursor);
        let mut p = i;
        while p > 0 && white(chars.get_char(p - 1))
            invariant
                p <= i <= chars@.len(),
                back_while(chars@, p as int, true) == back_while(chars@, i as int, true),
            decreases p,
        {
            p = p - 1;
        }
        let ghost q = p;
        while p > 0 && !white(chars.get_char(p - 1))
            invariant
                p <= q <= chars@.len(),
                q == back_while(chars@, i as int, true),
                back_while(chars@, p as int, false) == back_while(chars@, q as int, false),
            decreases p,
        {
            p = p - 1;
        }
        self.cursor = byte_offset(chars, p);
    }

    /// Cursor moved to the end of the word at or after it.
    pub fn move_right_word(&mut self)
        requires
            old(self).fits(),
            old(self).spec_cursor() >= old(self).spec_utf8().len() || boundary(
                old(self).spec_text(),
                old(self).spec_cursor() as int,
            ),
        ensures
            final(self).spec_text() == old(self).spec_text(),
            final(self).spec_cursor() == (if old(self).spec_cursor() >= old(self).spec_utf8().len() {
                old(self).spec_cursor() as int
            } else {
                byte_of(
                    old(self).spec_text(),
                    word_end(old(self).spec_text(), char_index(old(self).spec_text(), old(self).spec_cursor() as int)),
                )
            }),
    {
        let len = self.input.as_str().len();
        if self.cursor >= len {
            return;
        }
        let i = char_index_at(self.input.as_str(), self.cursor);
        let p = self.word_end_from(i);
        self.cursor = byte_offset(self.input.as_str(), p);
    }

    fn word_end_from(&self, from: usize) -> (r: usize)
        requires
            from <= self.spec_text().len(),
        ensures
            from <= r <= self.spec_text().len(),
            r == word_end(self.spec_text(), from as int),
    {
        let chars = self.input.as_str();
        let len = chars.unicode_len();
        let mut p = from;
        while p < len && white(chars.get_char(p))
            invariant
                from <= p <= len,
                len == chars@.len(),
                chars@ == self.input@,
                fwd_while(chars@, p as int, true) == fwd_while(chars@, from as int, true),
            decreases len - p,
        {
            p = p + 1;
        }
        let ghost q = p;
        while p < len && !white(chars.get_char(p))
            invariant
                from <= q <= p <= len,
                len == chars@.len(),
                q == fwd_while(chars@, from as int, true),
                fwd_while(chars@, p as int, false) == fwd_while(chars@, q as int, false),
            decreases len - p,
        {
            p = p + 1;
        }
        p
    }

    /// Erases from the cursor to the end of the word after it.
    pub fn ctrl_delete(&mut self)
        requires
            old(self).fits(),
            old(self).spec_cursor() >= old(self).spec_utf8().len() || boundary(
                old(self).spec_text(),
                old(self).spec_cursor() as int,
            ),
        ensures
            final(self).spec_cursor() == old(self).spec_cursor(),
            ({
                let s = old(self).spec_text();
                let u = old(self).spec_utf8();
                let c = old(self).spec_cursor() as int;
                let e = byte_of(s, word_end(s, char_index(s, c)));
                if c >= u.len() {
                    final(self).spec_text() == s
                } else {
                    final(self).spec_utf8() == u.subrange(0, c) + u.subrange(e, u.len() as int)
                }
            }),
    {
        let len = self.input.as_str().len();
        if self.cursor >= len {
            return;
        }
        let i = char_index_at(self.input.as_str(), self.cursor);
        let end = self.word_end_from(i);
        let eb = byte_offset(self.input.as_str(), end);
        proof {
            lemma_byte_of_boundary(self.input@, end as int);
        }
        if end > i {
            proof {
                lemma_byte_of_mono(self.input@, i as int, end as int);
            }
            self.remove_bytes(self.cursor, eb);
        } else {
            proof {
                let u = self.spec_utf8();
                assert(u.subrange(0, self.cursor as int) + u.subrange(eb as int, u.len() as int) =~= u);
            }
        }
    }

    /// Erases the word before the cursor, with the white space after it.
    pub fn ctrl_backspace(&mut self)
        requires
            old(self).fits(),
            boundary(old(self).spec_text(), old(self).spec_cursor() as int),
        ensures
            ({
                let s = old(self).spec_text();
                let u = old(self).spec_utf8();
                let c = old(self).spec_cursor() as int;
                let i = char_index(s, c);
                let q = erase_start(s, i);
                if c > 0 && q < i {
                    &&& final(self).spec_utf8() == u.subrange(0, byte_of(s, q)) + u.subrange(c, u.len() as int)
                    &&& final(self).spec_cursor() == byte_of(s, q)
                } else {
                    &&& final(self).spec_text() == s
                    &&& final(self).spec_cursor() == c
                }
            }),
    {
        if self.cursor == 0 {
            return;
        }
        let chars = self.input.as_str();
        let len = chars.unicode_len();
        let i = char_index_at(chars, self.cursor);
        proof {
            if i == 0 {
                assert(self.input@.take(0) =~= Seq::<char>::empty());
            }
        }
        let mut p = i - 1;
        while p > 0 && p < len && white(chars.get_char(p))
            invariant
                p < i <= len,
                len == chars@.len(),
                back_at(chars@, p as int, true) == back_at(chars@, i - 1, true),
            decreases p,
        {
            p = p - 1;
        }
        let ghost q = p;
        while p > 0 && p < len && !white(chars.get_char(p))
            invariant
                p <= q < i <= len,
                len == chars@.len(),
                q == back_at(chars@, i - 1, true),
                back_at(chars@, p as int, false) == back_at(chars@, q as int, false),
            decreases p,
        {
            p = p - 1;
        }
        if p > 0 && p < len && white(chars.get_char(p)) {
            p = p + 1;
        }
        if p < i {
            let pb = byte_offset(chars, p);
            proof {
                lemma_byte_of_boundary(self.input@, p as int);
                lemma_byte_of_mono(self.input@, p as int, i as int);
            }
            self.remove_bytes(pb, self.cursor);
            self.cursor = pb;
        }
    }
}

} // verus!
