//! Strings, characters and bytes: the pieces of std that the parser is
//! built on.

use vstd::prelude::*;
use vstd::string::StringSliceAdditionalSpecFns;
use vstd::utf8::decode_utf8;
use vstd::utf8::valid_utf8;

verus! {

/// What `{:?}` prints for a character: the character between single
/// quotes, escaped where std's `Debug` escapes it.
pub uninterp spec fn char_debug(c: char) -> Seq<char>;

/// Whether `v` is a Unicode scalar value, that is, the number of a `char`.
pub open spec fn is_scalar_value(v: u32) -> bool {
    v <= 0xD7FF || 0xE000 <= v <= 0x10FFFF
}

/// `String::push`: appends one character to the string.
#[verifier::external_body]
pub(crate) fn push_char(s: &mut String, c: char)
    ensures
        final(s)@ == old(s)@.push(c),
{
    s.push(c)
}

/// `char::from_u32`: the character with number `v`, which exists unless
/// `v` is a surrogate or lies above 0x10FFFF.
#[verifier::external_body]
pub(crate) fn char_from_u32(v: u32) -> (r: Option<char>)
    ensures
        is_scalar_value(v) ==> r == Some(v as char),
        !is_scalar_value(v) ==> r is None,
{
    char::from_u32(v)
}

/// `format!("{:?}", c)`: the character as its `Debug` impl prints it.
#[verifier::external_body]
pub(crate) fn debug_char(c: char) -> (r: String)
    ensures
        r@ == char_debug(c),
{
    format!("{:?}", c)
}

/// The bytes `s[from..to]` read as ASCII characters.
pub open spec fn ascii_text(s: Seq<u8>, from: int, to: int) -> Seq<char> {
    Seq::new((to - from) as nat, |i: int| s[from + i] as char)
}

/// Copies the ASCII bytes `bytes[from..to]` into a string.
pub fn ascii_string(bytes: &[u8], from: usize, to: usize) -> (r: String)
    requires
        from <= to <= bytes@.len(),
    ensures
        r@ == ascii_text(bytes@, from as int, to as int),
{
    let mut r = String::new();
    let mut i: usize = from;
    while i < to
        invariant
            from <= i <= to <= bytes@.len(),
            r@ == ascii_text(bytes@, from as int, i as int),
        decreases to - i,
    {
        push_char(&mut r, bytes[i] as char);
        i += 1;
        assert(r@ =~= ascii_text(bytes@, from as int, i as int));
    }
    r
}

/// The characters of `s`, one by one.
pub fn to_chars(s: &str) -> (r: Vec<char>)
    ensures
        r@ == s@,
{
    let mut r: Vec<char> = Vec::new();
    for c in it: s.chars()
        invariant
            r@ == it.seq().take(it.index()),
            it.seq() == s@,
    {
        r.push(c);
    }
    r
}

/// The characters `chars[from..to]` as a string.
pub fn chars_to_string(chars: &[char], from: usize, to: usize) -> (r: String)
    requires
        from <= to <= chars@.len(),
    ensures
        r@ == chars@.subrange(from as int, to as int),
{
    let mut r = String::new();
    let mut i: usize = from;
    while i < to
        invariant
            from <= i <= to <= chars@.len(),
            r@ == chars@.subrange(from as int, i as int),
        decreases to - i,
    {
        push_char(&mut r, chars[i]);
        i += 1;
        assert(r@ =~= chars@.subrange(from as int, i as int));
    }
    r
}

/// Whether two strings hold the same characters.
pub fn str_eq(a: &str, b: &str) -> (r: bool)
    ensures
        r == (a@ == b@),
{
    let x = a.as_bytes();
    let y = b.as_bytes();
    proof {
        vstd::utf8::encode_utf8_decode_utf8(a@);
        vstd::utf8::encode_utf8_decode_utf8(b@);
    }
    if x.len() != y.len() {
        return false;
    }
    let mut i: usize = 0;
    while i < x.len()
        invariant
            i <= x@.len() == y@.len(),
            x@ == a.spec_bytes(),
            y@ == b.spec_bytes(),
            forall|k: int| 0 <= k < i ==> x@[k] == y@[k],
        decreases x@.len() - i,
    {
        if x[i] != y[i] {
            return false;
        }
        i += 1;
    }
    assert(x@ =~= y@);
    true
}

/// The text of `text` between byte offsets `from` and `to`, where an ASCII
/// byte stands at `from` and another just before `to`.
pub fn sub_text<'a>(text: &'a str, from: usize, to: usize) -> (r: &'a str)
    requires
        from <= to <= text.spec_bytes().len(),
        from < text.spec_bytes().len() ==> text.spec_bytes()[from as int] < 0x80,
        0 < to ==> text.spec_bytes()[to - 1] < 0x80,
    ensures
        r.spec_bytes() == text.spec_bytes().subrange(from as int, to as int),
        valid_utf8(r.spec_bytes()),
        r@ == decode_utf8(text.spec_bytes().subrange(from as int, to as int)),
{
    let ghost bytes = text.spec_bytes();
    proof {
        vstd::utf8::encode_utf8_valid_utf8(text@);
        if to > 0 {
            lemma_boundary_after_ascii(bytes, to - 1);
        } else {
            vstd::utf8::is_char_boundary_start_end_of_seq(bytes);
        }
    }
    let (head, _) = text.split_at(to);
    proof {
        vstd::utf8::valid_utf8_split(bytes, to as int);
        assert(head.spec_bytes() == bytes.subrange(0, to as int));
        lemma_ascii_is_boundary(head.spec_bytes(), from as int);
    }
    let (_, r) = head.split_at(from);
    proof {
        vstd::utf8::encode_utf8_decode_utf8(r@);
        vstd::utf8::encode_utf8_valid_utf8(r@);
        assert(r.spec_bytes() =~= bytes.subrange(from as int, to as int));
    }
    r
}

/// In well-formed UTF-8 a character begins at every ASCII byte, and one
/// ends at the end of the text.
pub proof fn lemma_ascii_is_boundary(bytes: Seq<u8>, index: int)
    requires
        valid_utf8(bytes),
        0 <= index <= bytes.len(),
        index < bytes.len() ==> bytes[index] < 0x80,
    ensures
        vstd::utf8::is_char_boundary(bytes, index),
{
    if index < bytes.len() {
        let b = bytes[index];
        assert(!vstd::utf8::is_continuation_byte(b)) by {
            assert(b < 0x80 ==> b & 0xC0 != 0x80) by (bit_vector);
        }
        vstd::utf8::is_char_boundary_iff_not_is_continuation_byte(bytes, index);
    } else {
        vstd::utf8::is_char_boundary_start_end_of_seq(bytes);
    }
}

/// In well-formed UTF-8 a character begins behind every ASCII byte.
pub proof fn lemma_boundary_after_ascii(bytes: Seq<u8>, index: int)
    requires
        valid_utf8(bytes),
        0 <= index < bytes.len(),
        bytes[index] < 0x80,
    ensures
        vstd::utf8::is_char_boundary(bytes, index + 1),
{
    lemma_ascii_is_boundary(bytes, index);
    vstd::utf8::valid_utf8_split(bytes, index);
    let suffix = bytes.subrange(index, bytes.len() as int);
    assert(suffix[0] == bytes[index]);
    let rest = vstd::utf8::pop_first_scalar(suffix);
    assert(valid_utf8(rest));
    assert(rest =~= bytes.subrange(index + 1, bytes.len() as int));
    if index + 1 < bytes.len() {
        assert(rest[0] == bytes[index + 1]);
        assert(vstd::utf8::valid_first_scalar(rest));
        vstd::utf8::is_char_boundary_iff_not_is_continuation_byte(bytes, index + 1);
    } else {
        vstd::utf8::is_char_boundary_start_end_of_seq(bytes);
    }
}

/// Well-formed UTF-8 that begins with an ASCII byte decodes to that byte
/// as a character, followed by what the rest decodes to.
pub proof fn lemma_decode_ascii_first(bytes: Seq<u8>)
    requires
        valid_utf8(bytes),
        bytes.len() >= 1,
        bytes[0] < 0x80,
    ensures
        valid_utf8(bytes.subrange(1, bytes.len() as int)),
        decode_utf8(bytes) == seq![bytes[0] as char] + decode_utf8(
            bytes.subrange(1, bytes.len() as int),
        ),
{
    let b = bytes[0];
    assert(b & 0x7F == b) by (bit_vector)
        requires
            b < 0x80,
    ;
    assert(vstd::utf8::pop_first_scalar(bytes) =~= bytes.subrange(1, bytes.len() as int));
    assert(vstd::utf8::decode_first_scalar(bytes) == b as u32);
}

/// A string literal, as bytes between and with its two quotes, decodes to
/// text between and with two quotes.
pub proof fn lemma_quoted_literal(bytes: Seq<u8>)
    requires
        valid_utf8(bytes),
        bytes.len() >= 2,
        bytes[0] == 0x22,
        bytes[bytes.len() - 1] == 0x22,
    ensures
        decode_utf8(bytes).len() >= 2,
        decode_utf8(bytes)[0] == '"',
        decode_utf8(bytes)[decode_utf8(bytes).len() - 1] == '"',
{
    let n = bytes.len() as int;
    lemma_ascii_is_boundary(bytes, n - 1);
    vstd::utf8::decode_utf8_split(bytes, n - 1);
    vstd::utf8::valid_utf8_split(bytes, n - 1);
    let head = bytes.subrange(0, n - 1);
    let tail = bytes.subrange(n - 1, n);
    lemma_decode_ascii_first(tail);
    assert(tail.subrange(1, 1) =~= Seq::<u8>::empty());
    assert(decode_utf8(Seq::<u8>::empty()) =~= Seq::<char>::empty());
    assert(decode_utf8(tail) =~= seq!['"']);
    lemma_decode_ascii_first(head);
    assert(decode_utf8(head).len() >= 1);
    assert(decode_utf8(head)[0] == '"');
}

} // verus!
