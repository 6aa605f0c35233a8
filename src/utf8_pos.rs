use vstd::prelude::*;
use vstd::utf8::*;

verus! {

broadcast use vstd::string::group_string_axioms;

/// The UTF-8 bytes of a text.
pub open spec fn utf8(s: Seq<char>) -> Seq<u8> {
    encode_utf8(s)
}

/// Byte offset `c` starts a character of `s`, or is its end.
pub open spec fn boundary(s: Seq<char>, c: int) -> bool {
    is_char_boundary(encode_utf8(s), c)
}

/// Byte offset of the character at index `i` of `s`.
pub open spec fn byte_of(s: Seq<char>, i: int) -> int {
    encode_utf8(s.take(i)).len() as int
}

/// Index of the character that starts at byte offset `c`.
pub open spec fn char_index(s: Seq<char>, c: int) -> int {
    choose|i: int| 0 <= i <= s.len() && byte_of(s, i) == c
}

/// The nearest boundary at or before `p` (zero at the latest).
pub open spec fn prev_boundary(s: Seq<char>, p: int) -> int
    decreases p,
{
    if p <= 0 || boundary(s, p) {
        p
    } else {
        prev_boundary(s, p - 1)
    }
}

/// The nearest boundary at or after `p` (the end at the latest).
pub open spec fn next_boundary(s: Seq<char>, p: int) -> int
    decreases utf8(s).len() - p,
{
    if p >= utf8(s).len() || boundary(s, p) {
        p
    } else {
        next_boundary(s, p + 1)
    }
}

/// Encoding distributes over concatenation.
pub proof fn lemma_utf8_concat(a: Seq<char>, b: Seq<char>)
    ensures
        encode_utf8(a + b) == encode_utf8(a) + encode_utf8(b),
    decreases a.len(),
{
    if a.len() == 0 {
        assert(a + b =~= b);
        assert(encode_utf8(a) + encode_utf8(b) =~= encode_utf8(b));
    } else {
        lemma_utf8_concat(a.drop_first(), b);
        assert((a + b).drop_first() =~= a.drop_first() + b);
        assert((a + b)[0] == a[0]);
        assert(encode_utf8(a + b) =~= encode_utf8(a) + encode_utf8(b));
    }
}

/// Splitting the bytes of `s` at a boundary splits its characters.
pub proof fn lemma_split_chars(s: Seq<char>, c: int, a: Seq<char>, r: Seq<char>)
    requires
        boundary(s, c),
        encode_utf8(a) == encode_utf8(s).subrange(0, c),
        encode_utf8(r) == encode_utf8(s).subrange(c, encode_utf8(s).len() as int),
    ensures
        s == a + r,
        a == s.take(a.len() as int),
        c == byte_of(s, a.len() as int),
{
    broadcast use encode_utf8_valid_utf8, encode_utf8_decode_utf8;

    let b = encode_utf8(s);
    decode_utf8_split(b, c);
    assert(decode_utf8(b) == s);
    assert(decode_utf8(b.subrange(0, c)) == decode_utf8(encode_utf8(a)));
    assert(decode_utf8(encode_utf8(a)) == a);
    assert(decode_utf8(encode_utf8(r)) == r);
    assert(s == a + r);
    assert(s.take(a.len() as int) =~= a);
    assert(b.subrange(0, c).len() == c) by {
        is_char_boundary_start_end_of_seq(b);
        lemma_boundary_le(s, c);
    }
}

/// A boundary lies within the bytes.
pub proof fn lemma_boundary_le(s: Seq<char>, c: int)
    requires
        boundary(s, c),
    ensures
        0 <= c <= encode_utf8(s).len(),
{
    broadcast use encode_utf8_valid_utf8;

    let b = encode_utf8(s);
    if c != 0 {
        assert(is_char_boundary(b, c));
    }
}

/// The byte offset of a later character is larger.
pub proof fn lemma_byte_of_mono(s: Seq<char>, i: int, j: int)
    requires
        0 <= i < j <= s.len(),
    ensures
        byte_of(s, i) < byte_of(s, j),
{
    let x = s.take(i);
    let y = s.subrange(i, j);
    assert(s.take(j) =~= x + y);
    lemma_utf8_concat(x, y);
    assert(y.len() > 0);
    assert(encode_scalar(y[0] as u32).len() >= 1);
    assert(encode_utf8(y).len() >= 1);
}

/// The byte offset of a character index lies within the bytes.
pub proof fn lemma_byte_of_bounds(s: Seq<char>, i: int)
    requires
        0 <= i <= s.len(),
    ensures
        0 <= byte_of(s, i) <= encode_utf8(s).len(),
        byte_of(s, s.len() as int) == encode_utf8(s).len(),
{
    assert(s.take(s.len() as int) =~= s);
    lemma_utf8_concat(s.take(i), s.subrange(i, s.len() as int));
    assert(s.take(i) + s.subrange(i, s.len() as int) =~= s);
}

/// Every character index starts at a boundary.
pub proof fn lemma_byte_of_boundary(s: Seq<char>, i: int)
    requires
        0 <= i <= s.len(),
    ensures
        boundary(s, byte_of(s, i)),
    decreases s.len(),
{
    broadcast use encode_utf8_valid_utf8;

    let b = encode_utf8(s);
    if i == 0 {
        assert(s.take(0) =~= Seq::<char>::empty());
        assert(byte_of(s, 0) == 0);
    } else {
        encode_utf8_first_scalar(s);
        assert(pop_first_scalar(b) =~= encode_utf8(s.drop_first()));
        lemma_byte_of_boundary(s.drop_first(), i - 1);
        assert(s.take(i).drop_first() =~= s.drop_first().take(i - 1));
        assert(s.take(i)[0] == s[0]);
        let k = encode_scalar(s[0] as u32).len() as int;
        assert(byte_of(s, i) == k + byte_of(s.drop_first(), i - 1));
        lemma_byte_of_bounds(s, i);
        assert(byte_of(s, i) > 0) by {
            assert(encode_scalar(s[0] as u32).len() >= 1);
        }
        assert(is_char_boundary(b, byte_of(s, i)) == is_char_boundary(
            pop_first_scalar(b),
            byte_of(s, i) - length_of_first_scalar(b),
        ));
    }
}

/// The character index of a character's byte offset is that index.
pub proof fn lemma_char_index(s: Seq<char>, i: int)
    requires
        0 <= i <= s.len(),
    ensures
        char_index(s, byte_of(s, i)) == i,
{
    let c = byte_of(s, i);
    assert(exists|j: int| 0 <= j <= s.len() && byte_of(s, j) == c);
    let j = char_index(s, c);
    if j < i {
        lemma_byte_of_mono(s, j, i);
    } else if j > i {
        lemma_byte_of_mono(s, i, j);
    }
}

/// The nearest boundary at or after a position within the bytes is a
/// boundary within the bytes.
pub proof fn lemma_next_boundary(s: Seq<char>, p: int)
    requires
        0 <= p <= utf8(s).len(),
    ensures
        p <= next_boundary(s, p) <= utf8(s).len(),
        boundary(s, next_boundary(s, p)),
    decreases utf8(s).len() - p,
{
    broadcast use encode_utf8_valid_utf8;

    is_char_boundary_start_end_of_seq(encode_utf8(s));
    if !(p >= utf8(s).len() || boundary(s, p)) {
        lemma_next_boundary(s, p + 1);
    }
}

/// The nearest boundary at or before a position is a boundary.
pub proof fn lemma_prev_boundary(s: Seq<char>, p: int)
    requires
        0 <= p,
    ensures
        0 <= prev_boundary(s, p) <= p,
        boundary(s, prev_boundary(s, p)),
    decreases p,
{
    broadcast use encode_utf8_valid_utf8;

    is_char_boundary_start_end_of_seq(encode_utf8(s));
    if !(p <= 0 || boundary(s, p)) {
        lemma_prev_boundary(s, p - 1);
    }
}

/// Splits a string slice at a byte boundary, with what that means for its
/// characters.
pub fn split_str(s: &str, c: usize) -> (r: (&str, &str))
    requires
        boundary(s@, c as int),
    ensures
        s@ == r.0@ + r.1@,
        r.0@ == s@.take(r.0@.len() as int),
        c == byte_of(s@, r.0@.len() as int),
        utf8(r.0@) == utf8(s@).subrange(0, c as int),
        utf8(r.1@) == utf8(s@).subrange(c as int, utf8(s@).len() as int),
{
    let (a, b) = s.split_at(c);
    proof {
        lemma_split_chars(s@, c as int, a@, b@);
    }
    (a, b)
}

/// Byte offset of the character at index `p`.
pub fn byte_offset(s: &str, p: usize) -> (r: usize)
    requires
        p <= s@.len(),
        utf8(s@).len() <= usize::MAX,
    ensures
        r == byte_of(s@, p as int),
{
    let t = s.substring_char(0, p);
    proof {
        assert(t@ =~= s@.take(p as int));
        lemma_byte_of_bounds(s@, p as int);
    }
    t.len()
}

/// Index of the character that starts at byte offset `c`.
pub fn char_index_at(s: &str, c: usize) -> (r: usize)
    requires
        boundary(s@, c as int),
    ensures
        r <= s@.len(),
        r == char_index(s@, c as int),
        byte_of(s@, r as int) == c,
{
    let (a, _) = split_str(s, c);
    let r = a.unicode_len();
    proof {
        lemma_char_index(s@, r as int);
    }
    r
}

} // verus!
