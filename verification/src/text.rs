//! Characters, byte offsets and whitespace: the text-level groundwork that
//! the tokeniser stands on.
//!
//! A string is modelled by its view, a `Seq<char>`. Positions handed around
//! in executable code are byte offsets into the UTF-8 encoding, as string
//! slicing wants them; `byte_offset` ties the two together.

use vstd::prelude::*;
use vstd::string::*;
use vstd::utf8::*;

verus! {

/// Whether a character has the Unicode `White_Space` property.
pub uninterp spec fn char_is_whitespace(c: char) -> bool;

/// `char::is_whitespace` of the standard library. It is taken to decide the
/// Unicode `White_Space` property, the same for a given character on every
/// call; nothing is claimed about which characters have it.
pub assume_specification[ char::is_whitespace ](c: char) -> (b: bool)
    ensures
        b == char_is_whitespace(c),
;

/// `String::push` of the standard library: appends one character at the end
/// and leaves the rest of the string as it was.
pub assume_specification[ std::string::String::push ](s: &mut std::string::String, ch: char)
    ensures
        final(s)@ == old(s)@.push(ch),
;

/// `char::len_utf8` of the standard library: the number of bytes that the
/// character takes in UTF-8, which is the length of its encoding.
pub assume_specification[ char::len_utf8 ](c: char) -> (n: usize)
    ensures
        n == encode_scalar(c as u32).len(),
;

/// Length in bytes of the UTF-8 encoding of `s`.
pub open spec fn utf8_len(s: Seq<char>) -> nat {
    encode_utf8(s).len()
}

/// Byte offset at which character `i` of `s` starts in the encoding of `s`;
/// for `i == s.len()` the length of the whole encoding.
pub open spec fn byte_offset(s: Seq<char>, i: int) -> nat {
    utf8_len(s.take(i))
}

/// The characters of `s`, each paired with the byte offset where it starts.
pub open spec fn char_offsets(s: Seq<char>) -> Seq<(usize, char)> {
    Seq::new(s.len(), |i: int| (byte_offset(s, i) as usize, s[i]))
}

/// Encoding distributes over concatenation.
pub proof fn lemma_encode_concat(a: Seq<char>, b: Seq<char>)
    ensures
        encode_utf8(a + b) == encode_utf8(a) + encode_utf8(b),
    decreases a.len(),
{
    if a.len() == 0 {
        assert(a + b == b);
        assert(encode_utf8(a) + encode_utf8(b) == encode_utf8(b));
    } else {
        lemma_encode_concat(a.drop_first(), b);
        assert((a + b).drop_first() == a.drop_first() + b);
        assert(encode_utf8(a + b) == encode_scalar(a[0] as u32) + (encode_utf8(a.drop_first())
            + encode_utf8(b)));
    }
}

/// Every character takes between one and four bytes.
pub proof fn lemma_scalar_len(c: char)
    ensures
        1 <= encode_scalar(c as u32).len() <= 4,
{
}

/// Offsets grow character by character and never pass the total length.
pub proof fn lemma_byte_offset_step(s: Seq<char>, i: int)
    requires
        0 <= i < s.len(),
    ensures
        byte_offset(s, i + 1) == byte_offset(s, i) + encode_scalar(s[i] as u32).len(),
        byte_offset(s, i) < byte_offset(s, i + 1) <= utf8_len(s),
{
    let one = seq![s[i]];
    assert(s.take(i + 1) == s.take(i) + one);
    lemma_encode_concat(s.take(i), one);
    assert(one.drop_first() == Seq::<char>::empty());
    assert(encode_utf8(one) == encode_scalar(s[i] as u32)) by {
        reveal_with_fuel(encode_utf8, 2);
    }
    lemma_scalar_len(s[i]);
    assert(s == s.take(i + 1) + s.skip(i + 1));
    lemma_encode_concat(s.take(i + 1), s.skip(i + 1));
}

/// Offsets are monotone in the index.
pub proof fn lemma_byte_offset_mono(s: Seq<char>, i: int, j: int)
    requires
        0 <= i <= j <= s.len(),
    ensures
        byte_offset(s, i) <= byte_offset(s, j) <= utf8_len(s),
        i < j ==> byte_offset(s, i) < byte_offset(s, j),
        byte_offset(s, 0) == 0,
        byte_offset(s, s.len() as int) == utf8_len(s),
    decreases j - i,
{
    assert(s.take(0) == Seq::<char>::empty());
    assert(s.take(s.len() as int) == s);
    if i < j {
        lemma_byte_offset_step(s, j - 1);
        lemma_byte_offset_mono(s, i, j - 1);
    } else {
        assert(s == s.take(j) + s.skip(j));
        lemma_encode_concat(s.take(j), s.skip(j));
    }
}

/// The offset of a character is a character boundary of the encoding, and
/// what follows it is the encoding of the rest.
pub proof fn lemma_byte_offset_boundary(s: Seq<char>, i: int)
    requires
        0 <= i <= s.len(),
    ensures
        is_char_boundary(encode_utf8(s), byte_offset(s, i) as int),
        encode_utf8(s).subrange(byte_offset(s, i) as int, utf8_len(s) as int) == encode_utf8(
            s.skip(i),
        ),
        encode_utf8(s).subrange(0, byte_offset(s, i) as int) == encode_utf8(s.take(i)),
    decreases i,
{
    broadcast use encode_utf8_valid_utf8;

    let bytes = encode_utf8(s);
    assert(s == s.take(i) + s.skip(i));
    lemma_encode_concat(s.take(i), s.skip(i));
    assert(bytes.subrange(byte_offset(s, i) as int, utf8_len(s) as int) == encode_utf8(s.skip(i)));
    assert(bytes.subrange(0, byte_offset(s, i) as int) == encode_utf8(s.take(i)));
    if i == 0 {
        assert(s.take(0) == Seq::<char>::empty());
    } else {
        let rest = s.drop_first();
        encode_utf8_first_scalar(s);
        assert(pop_first_scalar(bytes) == encode_utf8(rest));
        lemma_byte_offset_boundary(rest, i - 1);
        let head = seq![s[0]];
        assert(s.take(i) == head + rest.take(i - 1));
        lemma_encode_concat(head, rest.take(i - 1));
        assert(head.drop_first() == Seq::<char>::empty());
        assert(encode_utf8(head) == encode_scalar(s[0] as u32)) by {
            reveal_with_fuel(encode_utf8, 2);
        }
        lemma_scalar_len(s[0]);
        assert(byte_offset(s, i) == length_of_first_scalar(bytes) + byte_offset(rest, i - 1));
    }
}

/// Two texts with the same encoding are the same text.
pub proof fn lemma_encode_injective(a: Seq<char>, b: Seq<char>)
    requires
        encode_utf8(a) == encode_utf8(b),
    ensures
        a == b,
{
    encode_utf8_decode_utf8(a);
    encode_utf8_decode_utf8(b);
}

/// Only the empty text has an empty encoding.
pub proof fn lemma_utf8_len_zero(s: Seq<char>)
    ensures
        utf8_len(s) == 0 <==> s.len() == 0,
{
    if s.len() > 0 {
        lemma_byte_offset_mono(s, 0, s.len() as int);
    }
}

/// Length of `s` in bytes.
pub fn byte_len(s: &str) -> (n: usize)
    ensures
        n == utf8_len(s@),
{
    s.as_bytes().len()
}

/// The characters of `s`.
pub fn chars_of(s: &str) -> (v: Vec<char>)
    ensures
        v@ == s@,
{
    let mut v: Vec<char> = Vec::new();
    for c in it: s.chars()
        invariant
            v@ == it.seq().take(it.index() as int),
            it.seq() == s@,
    {
        v.push(c);
    }
    v
}

/// The characters of `s` with their byte offsets.
pub fn char_indices(s: &str) -> (v: Vec<(usize, char)>)
    ensures
        v@ == char_offsets(s@),
{
    let total = byte_len(s);
    let mut v: Vec<(usize, char)> = Vec::new();
    let mut off: usize = 0;
    proof {
        lemma_byte_offset_mono(s@, 0, 0);
    }
    for c in it: s.chars()
        invariant
            it.seq() == s@,
            total == utf8_len(s@),
            off == byte_offset(s@, it.index() as int),
            v@ == char_offsets(s@).take(it.index() as int),
    {
        proof {
            lemma_byte_offset_step(s@, it.index() as int);
        }
        v.push((off, c));
        off = off + c.len_utf8();
    }
    v
}

/// The part of `s` from byte offset `pos` on; empty when `pos` is at or past
/// the end.
pub fn skip_bytes<'a>(s: &'a str, pos: usize) -> (r: &'a str)
    requires
        pos < utf8_len(s@) ==> is_char_boundary(encode_utf8(s@), pos as int),
    ensures
        pos >= utf8_len(s@) ==> r@.len() == 0,
        pos < utf8_len(s@) ==> r@ == decode_utf8(
            encode_utf8(s@).subrange(pos as int, utf8_len(s@) as int),
        ),
        forall|k: int| 0 <= k <= s@.len() && byte_offset(s@, k) == pos ==> r@ == s@.skip(k),
{
    let n = byte_len(s);
    let mid = if pos >= n {
        n
    } else {
        pos
    };
    proof {
        broadcast use encode_utf8_valid_utf8;

        is_char_boundary_start_end_of_seq(encode_utf8(s@));
    }
    let r = s.split_at(mid).1;
    proof {
        let bytes = encode_utf8(s@);
        encode_utf8_decode_utf8(r@);
        if pos >= n {
            assert(bytes.subrange(mid as int, bytes.len() as int).len() == 0);
            lemma_utf8_len_zero(r@);
        }
        assert forall|k: int| 0 <= k <= s@.len() && byte_offset(s@, k) == pos implies r@
            == s@.skip(k) by {
            lemma_byte_offset_boundary(s@, k);
            lemma_byte_offset_mono(s@, k, s@.len() as int);
            if pos >= n {
                assert(s@.skip(k) =~= r@);
            } else {
                lemma_encode_injective(r@, s@.skip(k));
            }
        }
    }
    r
}

/// Number of whitespace characters at the start of `s`.
pub open spec fn leading_ws(s: Seq<char>) -> nat
    decreases s.len(),
{
    if s.len() > 0 && char_is_whitespace(s[0]) {
        1 + leading_ws(s.drop_first())
    } else {
        0
    }
}

/// Number of whitespace characters at the end of `s`.
pub open spec fn trailing_ws(s: Seq<char>) -> nat
    decreases s.len(),
{
    if s.len() > 0 && char_is_whitespace(s.last()) {
        1 + trailing_ws(s.drop_last())
    } else {
        0
    }
}

/// `s` without its leading whitespace.
pub open spec fn trim_start(s: Seq<char>) -> Seq<char> {
    s.skip(leading_ws(s) as int)
}

/// `s` without its trailing whitespace.
pub open spec fn trim_end(s: Seq<char>) -> Seq<char> {
    s.take(s.len() - trailing_ws(s))
}

/// `s` without whitespace at either end.
pub open spec fn trim(s: Seq<char>) -> Seq<char> {
    trim_end(trim_start(s))
}

/// What `leading_ws` counts: a whitespace run that stops at the first other
/// character or at the end.
pub proof fn lemma_leading_ws(s: Seq<char>)
    ensures
        leading_ws(s) <= s.len(),
        forall|i: int| 0 <= i < leading_ws(s) ==> char_is_whitespace(#[trigger] s[i]),
        leading_ws(s) < s.len() ==> !char_is_whitespace(s[leading_ws(s) as int]),
    decreases s.len(),
{
    if s.len() > 0 && char_is_whitespace(s[0]) {
        let r = s.drop_first();
        lemma_leading_ws(r);
        assert forall|i: int| 0 <= i < leading_ws(s) implies char_is_whitespace(
            #[trigger] s[i],
        ) by {
            if i > 0 {
                assert(s[i] == r[i - 1]);
            }
        }
    }
}

/// What `trailing_ws` counts, seen from the end.
pub proof fn lemma_trailing_ws(s: Seq<char>)
    ensures
        trailing_ws(s) <= s.len(),
        forall|i: int|
            s.len() - trailing_ws(s) <= i < s.len() ==> char_is_whitespace(#[trigger] s[i]),
        trailing_ws(s) < s.len() ==> !char_is_whitespace(s[s.len() - trailing_ws(s) - 1]),
    decreases s.len(),
{
    if s.len() > 0 && char_is_whitespace(s.last()) {
        let r = s.drop_last();
        lemma_trailing_ws(r);
        assert forall|i: int| s.len() - trailing_ws(s) <= i < s.len() implies char_is_whitespace(
            #[trigger] s[i],
        ) by {
            if i < s.len() - 1 {
                assert(s[i] == r[i]);
            }
        }
    }
}

/// A whitespace run of `k` characters followed by something else, or by
/// nothing, is exactly the leading whitespace.
pub proof fn lemma_leading_ws_is(s: Seq<char>, k: int)
    requires
        0 <= k <= s.len(),
        forall|i: int| 0 <= i < k ==> char_is_whitespace(#[trigger] s[i]),
        k < s.len() ==> !char_is_whitespace(s[k]),
    ensures
        leading_ws(s) == k,
    decreases k,
{
    if k > 0 {
        let r = s.drop_first();
        assert(char_is_whitespace(s[0]));
        assert forall|i: int| 0 <= i < k - 1 implies char_is_whitespace(#[trigger] r[i]) by {
            assert(r[i] == s[i + 1]);
        }
        lemma_leading_ws_is(r, k - 1);
    }
}

/// The mirror image of `lemma_leading_ws_is`.
pub proof fn lemma_trailing_ws_is(s: Seq<char>, k: int)
    requires
        0 <= k <= s.len(),
        forall|i: int| s.len() - k <= i < s.len() ==> char_is_whitespace(#[trigger] s[i]),
        k < s.len() ==> !char_is_whitespace(s[s.len() - k - 1]),
    ensures
        trailing_ws(s) == k,
    decreases k,
{
    if k > 0 {
        let r = s.drop_last();
        assert(char_is_whitespace(s[s.len() - 1]));
        assert forall|i: int| r.len() - (k - 1) <= i < r.len() implies char_is_whitespace(
            #[trigger] r[i],
        ) by {
            assert(r[i] == s[i]);
        }
        lemma_trailing_ws_is(r, k - 1);
    }
}

/// `s` without its leading whitespace.
pub fn trim_start_str<'a>(s: &'a str) -> (r: &'a str)
    ensures
        r@ == trim_start(s@),
{
    let v = chars_of(s);
    let n = v.len();
    let mut a: usize = 0;
    while a < n && v[a].is_whitespace()
        invariant
            a <= n,
            n == v.len(),
            forall|i: int| 0 <= i < a ==> char_is_whitespace(#[trigger] v@[i]),
        decreases n - a,
    {
        a += 1;
    }
    proof {
        lemma_leading_ws_is(s@, a as int);
    }
    s.substring_char(a, n)
}

/// `s` without its trailing whitespace.
pub fn trim_end_str<'a>(s: &'a str) -> (r: &'a str)
    ensures
        r@ == trim_end(s@),
{
    let v = chars_of(s);
    let n = v.len();
    let mut b: usize = n;
    while b > 0 && v[b - 1].is_whitespace()
        invariant
            b <= n,
            n == v.len(),
            forall|i: int| b <= i < n ==> char_is_whitespace(#[trigger] v@[i]),
        decreases b,
    {
        b -= 1;
    }
    proof {
        lemma_trailing_ws_is(s@, n - b);
    }
    s.substring_char(0, b)
}

} // verus!
