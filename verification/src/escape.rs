//! String literals: stripping the quotes and decoding the escapes.

use crate::error::Error;
use crate::pos::Pos;
use crate::text::char_debug;
use crate::text::char_from_u32;
use crate::text::chars_to_string;
use crate::text::debug_char;
use crate::text::is_scalar_value;
use crate::text::push_char;
use crate::text::to_chars;
use arrayvec::ArrayVec;
use vstd::prelude::*;
use vstd::slice::slice_subrange;
use vstd::string::StringExecFns;

verus! {

/// `arrayvec::ArrayVec`: a vector of at most `CAP` items, stored inline.
#[verifier::external_type_specification]
#[verifier::external_body]
#[verifier::reject_recursive_types(T)]
pub struct ExArrayVec<T, const CAP: usize>(ArrayVec<T, CAP>);

/// The bytes that a buffer of up to four digits holds, oldest first.
pub uninterp spec fn buffered(v: ArrayVec<u8, 4>) -> Seq<u8>;

/// `ArrayVec::new`: an empty buffer.
#[verifier::external_body]
fn buffer_new() -> (v: ArrayVec<u8, 4>)
    ensures
        buffered(v) == Seq::<u8>::empty(),
{
    ArrayVec::new()
}

/// `ArrayVec::clear`: removes every byte from the buffer.
#[verifier::external_body]
fn buffer_clear(v: &mut ArrayVec<u8, 4>)
    ensures
        buffered(*final(v)) == Seq::<u8>::empty(),
{
    v.clear()
}

/// `ArrayVec::push`: appends one byte to a buffer that is not yet full.
#[verifier::external_body]
fn buffer_push(v: &mut ArrayVec<u8, 4>, b: u8)
    requires
        buffered(*old(v)).len() < 4,
    ensures
        buffered(*final(v)) == buffered(*old(v)).push(b),
{
    v.push(b)
}

/// `ArrayVec::as_slice`: the bytes of the buffer, in the order they came.
#[verifier::external_body]
fn buffer_as_slice(v: &ArrayVec<u8, 4>) -> (s: &[u8])
    ensures
        s@ == buffered(*v),
{
    v.as_slice()
}

/// Whether `c` is one of `0-9`, `a-f`, `A-F`.
pub open spec fn is_hex_digit(c: char) -> bool {
    ('0' <= c <= '9') || ('a' <= c <= 'f') || ('A' <= c <= 'F')
}

/// Whether `b` is the ASCII code of a hexadecimal digit.
pub open spec fn is_hex_byte(b: u8) -> bool {
    (0x30 <= b <= 0x39) || (0x61 <= b <= 0x66) || (0x41 <= b <= 0x46)
}

/// The number that the hexadecimal digit with ASCII code `b` stands for.
pub open spec fn hex_digit_value(b: u8) -> nat {
    if 0x30 <= b <= 0x39 {
        (b - 0x30) as nat
    } else if 0x61 <= b <= 0x66 {
        (b - 0x61 + 10) as nat
    } else if 0x41 <= b <= 0x46 {
        (b - 0x41 + 10) as nat
    } else {
        0
    }
}

/// The number that the hexadecimal digits `d` write, first digit highest.
pub open spec fn hex_value(d: Seq<u8>) -> nat
    decreases d.len(),
{
    if d.len() == 0 {
        0
    } else {
        hex_value(d.drop_last()) * 16 + hex_digit_value(d.last())
    }
}

/// The bytes `d` as characters.
pub open spec fn as_chars(d: Seq<u8>) -> Seq<char> {
    Seq::new(d.len(), |i: int| d[i] as char)
}

/// The message for a backslash with nothing behind it.
pub open spec fn msg_slash_at_end() -> Seq<char> {
    "slash cant be at the end"@
}

/// The end of the message for digits that name no character.
pub open spec fn msg_invalid_code_point() -> Seq<char> {
    " is not a valid unicode code point"@
}

/// The end of the message for a `\u` with fewer than four characters left.
pub open spec fn msg_too_short() -> Seq<char> {
    " must have 4 characters after it"@
}

/// The start of the message for a character that no escape is made of.
pub open spec fn msg_bad_escape() -> Seq<char> {
    "bad escaped char "@
}

/// What the character behind a backslash stands for, if it is not `u`.
pub open spec fn simple_escape(c: char) -> Option<char> {
    if c == '"' || c == '\\' || c == '/' {
        Some(c)
    } else if c == 'b' {
        Some('\u{8}')
    } else if c == 'f' {
        Some('\u{c}')
    } else if c == 'n' {
        Some('\n')
    } else if c == 'r' {
        Some('\r')
    } else if c == 't' {
        Some('\t')
    } else {
        None
    }
}

/// How many characters of `t` lie at or after index `i`.
pub open spec fn left(t: Seq<char>, i: int) -> nat {
    if i < t.len() {
        (t.len() - i) as nat
    } else {
        0
    }
}

/// The character that the four hexadecimal digits from `t[i]` on name,
/// given the digits `got` already read; or the message for the first thing
/// that is wrong, reading left to right: a character that is no digit, the
/// end of the text, or four digits that name no character.
pub open spec fn unicode_escape(t: Seq<char>, i: int, got: Seq<u8>) -> Result<char, Seq<char>>
    decreases 4 - got.len(),
{
    if got.len() >= 4 {
        if is_scalar_value(hex_value(got) as u32) {
            Ok(hex_value(got) as u32 as char)
        } else {
            Err(as_chars(got) + msg_invalid_code_point())
        }
    } else if i >= t.len() {
        Err(as_chars(got) + msg_too_short())
    } else if is_hex_digit(t[i]) {
        unicode_escape(t, i + 1, got.push(t[i] as u8))
    } else {
        Err(seq![t[i]] + msg_invalid_code_point())
    }
}

/// The text that `t[i..]` stands for once its escapes are decoded, behind
/// the text `acc` decoded so far; or the message for the first escape that
/// is malformed.
pub open spec fn decode_escapes(t: Seq<char>, i: int, acc: Seq<char>) -> Result<
    Seq<char>,
    Seq<char>,
>
    decreases left(t, i),
{
    if i < 0 || i >= t.len() {
        Ok(acc)
    } else if t[i] != '\\' {
        decode_escapes(t, i + 1, acc.push(t[i]))
    } else if i + 1 >= t.len() {
        Err(msg_slash_at_end())
    } else if t[i + 1] == 'u' {
        match unicode_escape(t, i + 2, Seq::empty()) {
            Ok(c) => decode_escapes(t, i + 6, acc.push(c)),
            Err(m) => Err(m),
        }
    } else {
        match simple_escape(t[i + 1]) {
            Some(c) => decode_escapes(t, i + 2, acc.push(c)),
            None => Err(msg_bad_escape() + char_debug(t[i + 1])),
        }
    }
}

/// What a string literal stands for: the text between its first and last
/// character, with the escapes decoded.
pub open spec fn unquoted(literal: Seq<char>) -> Result<Seq<char>, Seq<char>> {
    decode_escapes(literal.subrange(1, literal.len() - 1), 0, Seq::empty())
}

/// Whether `r` is the outcome `m`, with an error placed at `pos`.
pub open spec fn reports(r: Result<String, Error>, m: Result<Seq<char>, Seq<char>>, pos: Pos) -> bool {
    match m {
        Ok(t) => r matches Ok(x) && x@ == t,
        Err(message) => r matches Err(e) && e.pos == pos && e.message@ == message,
    }
}

/// Text without a backslash stands for itself.
pub proof fn lemma_plain_text(t: Seq<char>, i: int, acc: Seq<char>)
    requires
        0 <= i <= t.len(),
        forall|k: int| i <= k < t.len() ==> t[k] != '\\',
    ensures
        decode_escapes(t, i, acc) == Ok::<Seq<char>, Seq<char>>(acc + t.subrange(i, t.len() as int)),
    decreases t.len() - i,
{
    if i < t.len() {
        lemma_plain_text(t, i + 1, acc.push(t[i]));
        assert(acc.push(t[i]) + t.subrange(i + 1, t.len() as int) =~= acc + t.subrange(
            i,
            t.len() as int,
        ));
    } else {
        assert(acc + t.subrange(i, t.len() as int) =~= acc);
    }
}

fn is_hex(c: char) -> (r: bool)
    ensures
        r == is_hex_digit(c),
{
    (c >= '0' && c <= '9') || (c >= 'a' && c <= 'f') || (c >= 'A' && c <= 'F')
}

fn hex_to_u32(d: &[u8]) -> (r: u32)
    requires
        d@.len() <= 4,
        forall|k: int| 0 <= k < d@.len() ==> is_hex_byte(d@[k]),
    ensures
        r == hex_value(d@),
        r <= 0xFFFF,
{
    let mut v: u32 = 0;
    let mut k: usize = 0;
    while k < d.len()
        invariant
            k <= d@.len() <= 4,
            forall|j: int| 0 <= j < d@.len() ==> is_hex_byte(d@[j]),
            v == hex_value(d@.subrange(0, k as int)),
            k == 0 ==> v == 0,
            k == 1 ==> v <= 0xF,
            k == 2 ==> v <= 0xFF,
            k == 3 ==> v <= 0xFFF,
            k == 4 ==> v <= 0xFFFF,
        decreases d@.len() - k,
    {
        let b = d[k];
        let digit: u32 = if b >= 0x30 && b <= 0x39 {
            (b - 0x30) as u32
        } else if b >= 0x61 && b <= 0x66 {
            (b - 0x61 + 10) as u32
        } else {
            (b - 0x41 + 10) as u32
        };
        assert(d@.subrange(0, k as int + 1).drop_last() =~= d@.subrange(0, k as int));
        v = v * 16 + digit;
        k += 1;
    }
    assert(d@.subrange(0, k as int) =~= d@);
    v
}

fn digits_text(d: &[u8]) -> (r: String)
    ensures
        r@ == as_chars(d@),
{
    let mut r = String::new();
    let mut k: usize = 0;
    while k < d.len()
        invariant
            k <= d@.len(),
            r@ == as_chars(d@.subrange(0, k as int)),
        decreases d@.len() - k,
    {
        push_char(&mut r, d[k] as char);
        k += 1;
        assert(r@ =~= as_chars(d@.subrange(0, k as int)));
    }
    assert(d@.subrange(0, k as int) =~= d@);
    r
}

/// Decodes the escapes in `body`, the text between the quotes of a string
/// literal. An error is placed at `pos`.
pub fn unescape(body: &[char], pos: Pos) -> (r: Result<String, Error>)
    ensures
        reports(r, decode_escapes(body@, 0, Seq::empty()), pos),
{
    let mut res = String::new();
    let mut temp_code_point = buffer_new();
    let mut i: usize = 0;
    while i < body.len()
        invariant
            i <= body@.len(),
            decode_escapes(body@, 0, Seq::empty()) == decode_escapes(body@, i as int, res@),
        decreases body@.len() - i,
    {
        let c = body[i];
        if c != '\\' {
            push_char(&mut res, c);
            i += 1;
        } else if i + 1 >= body.len() {
            return Err(Error::new(pos, String::from_str("slash cant be at the end")));
        } else if body[i + 1] == 'u' {
            buffer_clear(&mut temp_code_point);
            let mut j: usize = i + 2;
            let mut n: usize = 0;
            while n < 4
                invariant
                    i + 2 <= j <= body@.len(),
                    j == i + 2 + n,
                    n <= 4,
                    buffered(temp_code_point).len() == n,
                    forall|k: int|
                        0 <= k < buffered(temp_code_point).len() ==> is_hex_byte(
                            #[trigger] buffered(temp_code_point)[k],
                        ),
                    unicode_escape(body@, i + 2, Seq::empty()) == unicode_escape(
                        body@,
                        j as int,
                        buffered(temp_code_point),
                    ),
                    decode_escapes(body@, 0, Seq::empty()) == decode_escapes(
                        body@,
                        i as int,
                        res@,
                    ),
                    body@[i as int] == '\\',
                    body@[i + 1] == 'u',
                decreases 4 - n,
            {
                if j >= body.len() {
                    let message = digits_text(buffer_as_slice(&temp_code_point)).concat(
                        " must have 4 characters after it",
                    );
                    return Err(Error::new(pos, message));
                }
                let inner_c = body[j];
                if !is_hex(inner_c) {
                    let mut message = String::new();
                    push_char(&mut message, inner_c);
                    let message = message.concat(" is not a valid unicode code point");
                    assert(message@ =~= seq![inner_c] + msg_invalid_code_point());
                    return Err(Error::new(pos, message));
                }
                buffer_push(&mut temp_code_point, inner_c as u8);
                j += 1;
                n += 1;
            }
            let digits = buffer_as_slice(&temp_code_point);
            let v = hex_to_u32(digits);
            match char_from_u32(v) {
                Some(unicode_char) => push_char(&mut res, unicode_char),
                None => {
                    let message = digits_text(digits).concat(" is not a valid unicode code point");
                    return Err(Error::new(pos, message));
                },
            }
            i = j;
        } else {
            let e = body[i + 1];
            if e == '"' || e == '\\' || e == '/' {
                push_char(&mut res, e);
            } else if e == 'b' {
                push_char(&mut res, '\u{8}');
            } else if e == 'f' {
                push_char(&mut res, '\u{c}');
            } else if e == 'n' {
                push_char(&mut res, '\n');
            } else if e == 'r' {
                push_char(&mut res, '\r');
            } else if e == 't' {
                push_char(&mut res, '\t');
            } else {
                let message = String::from_str("bad escaped char ").concat(debug_char(e).as_str());
                return Err(Error::new(pos, message));
            }
            i += 2;
        }
    }
    Ok(res)
}

/// Turns a string literal, quotes included, into the text it stands for.
/// A literal without a backslash stands for what is between its quotes.
/// Otherwise its escapes are decoded from left to right: `\"`, `\\` and
/// `\/` give the character itself, `\b`, `\f`, `\n`, `\r` and `\t` the
/// control character of that name, and `\u` with four hexadecimal digits
/// the character with that number. The first escape that is none of these
/// gives an error at `pos`.
pub fn unquote_string(s: &str, pos: Pos) -> (r: Result<String, Error>)
    requires
        s@.len() >= 2,
        s@[0] == '"',
        s@[s@.len() - 1] == '"',
    ensures
        reports(r, unquoted(s@), pos),
{
    let chars = to_chars(s);
    let body = slice_subrange(chars.as_slice(), 1, chars.len() - 1);
    let mut k: usize = 0;
    while k < body.len()
        invariant
            k <= body@.len(),
            body@ == s@.subrange(1, s@.len() - 1),
            forall|j: int| 0 <= j < k ==> body@[j] != '\\',
        decreases body@.len() - k,
    {
        if body[k] == '\\' {
            return unescape(body, pos);
        }
        k += 1;
    }
    proof {
        lemma_plain_text(body@, 0, Seq::empty());
        assert(Seq::<char>::empty() + body@.subrange(0, body@.len() as int) =~= body@);
    }
    Ok(chars_to_string(body, 0, body.len()))
}

} // verus!
