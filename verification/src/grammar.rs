//! The lexical grammar of request documents: ignored text, names, numbers
//! and string literals, as functions on the bytes of the source.

use crate::position::LINE_FEED;
use crate::text::ascii_string;
use crate::text::ascii_text;
use crate::text::sub_text;
use vstd::prelude::*;
use vstd::string::StringSliceAdditionalSpecFns;
use vstd::utf8::decode_utf8;

verus! {

pub const TAB: u8 = 0x09;

pub const CARRIAGE_RETURN: u8 = 0x0D;

pub const SPACE: u8 = 0x20;

pub const BANG: u8 = 0x21;

pub const QUOTE: u8 = 0x22;

pub const HASH: u8 = 0x23;

pub const DOLLAR: u8 = 0x24;

pub const PAREN_OPEN: u8 = 0x28;

pub const PAREN_CLOSE: u8 = 0x29;

pub const PLUS: u8 = 0x2B;

pub const COMMA: u8 = 0x2C;

pub const MINUS: u8 = 0x2D;

pub const DOT: u8 = 0x2E;

pub const ZERO: u8 = 0x30;

pub const NINE: u8 = 0x39;

pub const COLON: u8 = 0x3A;

pub const EQUALS: u8 = 0x3D;

pub const AT: u8 = 0x40;

pub const BRACKET_OPEN: u8 = 0x5B;

pub const BACKSLASH: u8 = 0x5C;

pub const BRACKET_CLOSE: u8 = 0x5D;

pub const UNDERSCORE: u8 = 0x5F;

pub const BRACE_OPEN: u8 = 0x7B;

pub const BRACE_CLOSE: u8 = 0x7D;

/// Whether offset `p` of `s` holds the byte `b`.
pub open spec fn byte_at(s: Seq<u8>, p: int, b: u8) -> bool {
    0 <= p < s.len() && s[p] == b
}

/// How many bytes of `s` lie at or after offset `p`.
pub open spec fn remaining(s: Seq<u8>, p: int) -> nat {
    if 0 <= p < s.len() {
        (s.len() - p) as nat
    } else {
        0
    }
}

/// Whether `b` separates tokens and means nothing more: a space, a tab, a
/// line break or a comma.
pub open spec fn is_blank(b: u8) -> bool {
    b == SPACE || b == TAB || b == LINE_FEED || b == CARRIAGE_RETURN || b == COMMA
}

/// Whether a byte order mark stands at offset `p`.
pub open spec fn mark_at(s: Seq<u8>, p: int) -> bool {
    0 <= p && p + 2 < s.len() && s[p] == 0xEF && s[p + 1] == 0xBB && s[p + 2] == 0xBF
}

/// The offset of the first byte at or after `p` that belongs to a token,
/// or the end of the text. Blanks, byte order marks and comments are
/// passed over; a comment runs from `#` to the end of its line. With
/// `in_comment`, offset `p` lies inside a comment.
pub open spec fn skip_from(s: Seq<u8>, p: int, in_comment: bool) -> int
    decreases remaining(s, p), (if in_comment {
        1nat
    } else {
        0nat
    }),
{
    if p < 0 || p >= s.len() {
        p
    } else if in_comment {
        if s[p] == LINE_FEED || s[p] == CARRIAGE_RETURN {
            skip_from(s, p, false)
        } else {
            skip_from(s, p + 1, true)
        }
    } else if is_blank(s[p]) {
        skip_from(s, p + 1, false)
    } else if s[p] == HASH {
        skip_from(s, p + 1, true)
    } else if mark_at(s, p) {
        skip_from(s, p + 3, false)
    } else {
        p
    }
}

/// The offset of the first token at or after `p`, or the end of the text.
pub open spec fn skip(s: Seq<u8>, p: int) -> int {
    skip_from(s, p, false)
}

/// Skipping never goes back, and stays inside the text.
pub proof fn lemma_skip_from_bounds(s: Seq<u8>, p: int, in_comment: bool)
    ensures
        p <= skip_from(s, p, in_comment),
        p <= s.len() ==> skip_from(s, p, in_comment) <= s.len(),
    decreases remaining(s, p), (if in_comment {
        1nat
    } else {
        0nat
    }),
{
    if p < 0 || p >= s.len() {
    } else if in_comment {
        if s[p] == LINE_FEED || s[p] == CARRIAGE_RETURN {
            lemma_skip_from_bounds(s, p, false);
        } else {
            lemma_skip_from_bounds(s, p + 1, true);
        }
    } else if is_blank(s[p]) {
        lemma_skip_from_bounds(s, p + 1, false);
    } else if s[p] == HASH {
        lemma_skip_from_bounds(s, p + 1, true);
    } else if mark_at(s, p) {
        lemma_skip_from_bounds(s, p + 3, false);
    }
}

/// Skipping never goes back, and stays inside the text.
pub broadcast proof fn lemma_skip_bounds(s: Seq<u8>, p: int)
    ensures
        p <= #[trigger] skip(s, p),
        p <= s.len() ==> skip(s, p) <= s.len(),
{
    lemma_skip_from_bounds(s, p, false);
}

/// Whether `b` is an ASCII letter.
pub open spec fn is_letter(b: u8) -> bool {
    (0x41 <= b <= 0x5A) || (0x61 <= b <= 0x7A)
}

/// Whether `b` is an ASCII digit.
pub open spec fn is_digit(b: u8) -> bool {
    ZERO <= b <= NINE
}

/// Whether a name can begin with `b`: a letter or an underscore.
pub open spec fn is_name_start(b: u8) -> bool {
    is_letter(b) || b == UNDERSCORE
}

/// Whether a name can go on with `b`: a letter, a digit or an underscore.
pub open spec fn is_name_continue(b: u8) -> bool {
    is_name_start(b) || is_digit(b)
}

/// Whether a name begins at offset `p`.
pub open spec fn name_at(s: Seq<u8>, p: int) -> bool {
    0 <= p < s.len() && is_name_start(s[p])
}

/// Whether a digit stands at offset `p`.
pub open spec fn digit_at(s: Seq<u8>, p: int) -> bool {
    0 <= p < s.len() && is_digit(s[p])
}

/// The first offset at or after `p` that does not continue a name.
pub open spec fn name_end(s: Seq<u8>, p: int) -> int
    decreases remaining(s, p),
{
    if 0 <= p < s.len() && is_name_continue(s[p]) {
        name_end(s, p + 1)
    } else {
        p
    }
}

/// The first offset at or after `p` that holds no digit.
pub open spec fn digits_end(s: Seq<u8>, p: int) -> int
    decreases remaining(s, p),
{
    if digit_at(s, p) {
        digits_end(s, p + 1)
    } else {
        p
    }
}

/// The end of a name is not before its start, and inside the text.
pub broadcast proof fn lemma_name_end_bounds(s: Seq<u8>, p: int)
    ensures
        p <= #[trigger] name_end(s, p),
        p <= s.len() ==> name_end(s, p) <= s.len(),
    decreases remaining(s, p),
{
    if 0 <= p < s.len() && is_name_continue(s[p]) {
        lemma_name_end_bounds(s, p + 1);
    }
}

/// The end of a run of digits is not before its start, and inside the
/// text.
pub broadcast proof fn lemma_digits_end_bounds(s: Seq<u8>, p: int)
    ensures
        p <= #[trigger] digits_end(s, p),
        p <= s.len() ==> digits_end(s, p) <= s.len(),
    decreases remaining(s, p),
{
    if digit_at(s, p) {
        lemma_digits_end_bounds(s, p + 1);
    }
}

/// The text of the name that begins at offset `p`.
pub open spec fn name_text(s: Seq<u8>, p: int) -> Seq<char> {
    ascii_text(s, p, name_end(s, p + 1))
}

/// Where the string literal whose opening quote stands just before `p`
/// ends: the offset behind its closing quote, or else the offset at which
/// it breaks off, which is a line break or the end of the text. A
/// backslash takes the byte behind it along, whatever it is.
pub open spec fn string_end(s: Seq<u8>, p: int) -> Result<int, int>
    decreases remaining(s, p),
{
    if p < 0 || p >= s.len() {
        Err(p)
    } else if s[p] == QUOTE {
        Ok(p + 1)
    } else if s[p] == LINE_FEED || s[p] == CARRIAGE_RETURN {
        Err(p)
    } else if s[p] == BACKSLASH {
        if p + 1 >= s.len() {
            Err(p + 1)
        } else {
            string_end(s, p + 2)
        }
    } else {
        string_end(s, p + 1)
    }
}

/// A string literal ends behind a quote, inside the text; one that breaks
/// off does so inside the text as well.
pub proof fn lemma_string_end_bounds(s: Seq<u8>, p: int)
    requires
        0 <= p <= s.len(),
    ensures
        match string_end(s, p) {
            Ok(e) => p < e <= s.len() && s[e - 1] == QUOTE,
            Err(e) => p <= e <= s.len(),
        },
    decreases remaining(s, p),
{
    if p >= s.len() {
    } else if s[p] == QUOTE {
    } else if s[p] == LINE_FEED || s[p] == CARRIAGE_RETURN {
    } else if s[p] == BACKSLASH {
        if p + 1 < s.len() {
            lemma_string_end_bounds(s, p + 2);
        }
    } else {
        lemma_string_end_bounds(s, p + 1);
    }
}

/// A number as it is written: where it ends, and whether a fraction or an
/// exponent makes it a floating-point number.
pub struct Number {
    pub end: int,
    pub float: bool,
}

/// The end of the exponent that may stand at offset `p`, or else the
/// offset at which a digit is missing.
pub open spec fn exponent_end(s: Seq<u8>, p: int) -> Result<int, int> {
    let q = if byte_at(s, p + 1, PLUS) || byte_at(s, p + 1, MINUS) {
        p + 2
    } else {
        p + 1
    };
    if digit_at(s, q) {
        Ok(digits_end(s, q + 1))
    } else {
        Err(q)
    }
}

/// Whether an exponent sign, `e` or `E`, stands at offset `p`.
pub open spec fn exponent_at(s: Seq<u8>, p: int) -> bool {
    byte_at(s, p, 0x45) || byte_at(s, p, 0x65)
}

/// The number that begins at offset `p`: an optional minus sign, then `0`
/// or digits that do not begin with `0`, then an optional fraction, then
/// an optional exponent. Where a digit is missing, the offset of the gap.
pub open spec fn number_at(s: Seq<u8>, p: int) -> Result<Number, int> {
    let q = if byte_at(s, p, MINUS) {
        p + 1
    } else {
        p
    };
    if !digit_at(s, q) {
        Err(q)
    } else {
        let whole = if s[q] == ZERO {
            q + 1
        } else {
            digits_end(s, q + 1)
        };
        if byte_at(s, whole, DOT) {
            if !digit_at(s, whole + 1) {
                Err(whole + 1)
            } else {
                let fraction = digits_end(s, whole + 2);
                if exponent_at(s, fraction) {
                    match exponent_end(s, fraction) {
                        Ok(end) => Ok(Number { end, float: true }),
                        Err(gap) => Err(gap),
                    }
                } else {
                    Ok(Number { end: fraction, float: true })
                }
            }
        } else if exponent_at(s, whole) {
            match exponent_end(s, whole) {
                Ok(end) => Ok(Number { end, float: true }),
                Err(gap) => Err(gap),
            }
        } else {
            Ok(Number { end: whole, float: false })
        }
    }
}

/// The number that the digits `s[from..to]` write.
pub open spec fn digits_value(s: Seq<u8>, from: int, to: int) -> nat
    decreases to - from,
{
    if to <= from {
        0
    } else {
        digits_value(s, from, to - 1) * 10 + (s[to - 1] - ZERO) as nat
    }
}

/// The integer that `s[from..to]` writes, a run of digits behind an
/// optional minus sign.
pub open spec fn integer_value(s: Seq<u8>, from: int, to: int) -> int {
    if byte_at(s, from, MINUS) {
        -(digits_value(s, from + 1, to) as int)
    } else {
        digits_value(s, from, to) as int
    }
}

/// More digits never write a smaller number.
pub proof fn lemma_digits_value_grows(s: Seq<u8>, from: int, mid: int, to: int)
    requires
        from <= mid <= to,
        forall|k: int| from <= k < to ==> is_digit(#[trigger] s[k]),
    ensures
        digits_value(s, from, mid) <= digits_value(s, from, to),
    decreases to - mid,
{
    if mid < to {
        lemma_digits_value_grows(s, from, mid, to - 1);
        assert(digits_value(s, from, to - 1) * 10 >= digits_value(s, from, to - 1));
    }
}

/// The source text as the parser reads it: the text itself, and its bytes.
pub struct Source<'a> {
    text: &'a str,
    bytes: &'a [u8],
}

impl<'a> View for Source<'a> {
    type V = Seq<u8>;

    closed spec fn view(&self) -> Seq<u8> {
        self.bytes@
    }
}

impl<'a> Source<'a> {
    /// The bytes are those of the text.
    pub closed spec fn coherent(&self) -> bool {
        self.bytes@ == self.text.spec_bytes()
    }

    /// The bytes are those of the text, and fewer than `usize::MAX`.
    pub open spec fn wf(&self) -> bool {
        &&& self.coherent()
        &&& self@.len() < usize::MAX
    }

    /// The source for `text`, unless the text is too long to count its
    /// lines.
    pub fn new(text: &'a str) -> (r: Option<Self>)
        ensures
            text.spec_bytes().len() < usize::MAX ==> r is Some && r->0.wf() && r->0@
                == text.spec_bytes(),
            text.spec_bytes().len() >= usize::MAX ==> r is None,
    {
        let bytes = text.as_bytes();
        if bytes.len() < usize::MAX {
            Some(Source { text, bytes })
        } else {
            None
        }
    }

    /// The number of bytes.
    pub fn len(&self) -> (r: usize)
        ensures
            r == self@.len(),
    {
        self.bytes.len()
    }

    /// Whether offset `p` holds the byte `b`.
    pub fn is(&self, p: usize, b: u8) -> (r: bool)
        ensures
            r == byte_at(self@, p as int, b),
    {
        p < self.bytes.len() && self.bytes[p] == b
    }

    /// The offset of the first token at or after `start`.
    pub fn skip(&self, start: usize) -> (r: usize)
        requires
            start <= self@.len(),
        ensures
            r == skip(self@, start as int),
            start <= r <= self@.len(),
    {
        let mut p = start;
        let mut in_comment = false;
        proof {
            lemma_skip_bounds(self@, start as int);
        }
        loop
            invariant
                start <= p <= self@.len(),
                skip(self@, start as int) == skip_from(self@, p as int, in_comment),
            decreases remaining(self@, p as int), (if in_comment {
                1nat
            } else {
                0nat
            }),
        {
            if p >= self.bytes.len() {
                return p;
            }
            let b = self.bytes[p];
            if in_comment {
                if b == LINE_FEED || b == CARRIAGE_RETURN {
                    in_comment = false;
                } else {
                    p += 1;
                }
            } else if b == SPACE || b == TAB || b == LINE_FEED || b == CARRIAGE_RETURN || b
                == COMMA {
                p += 1;
            } else if b == HASH {
                p += 1;
                in_comment = true;
            } else if b == 0xEF && self.bytes.len() - p > 2 && self.bytes[p + 1] == 0xBB
                && self.bytes[p + 2] == 0xBF {
                p += 3;
            } else {
                return p;
            }
        }
    }

    /// Whether a name begins at offset `p`.
    pub fn name_starts(&self, p: usize) -> (r: bool)
        ensures
            r == name_at(self@, p as int),
    {
        if p < self.bytes.len() {
            let b = self.bytes[p];
            (b >= 0x41 && b <= 0x5A) || (b >= 0x61 && b <= 0x7A) || b == UNDERSCORE
        } else {
            false
        }
    }

    /// Whether a digit stands at offset `p`.
    pub fn digit_starts(&self, p: usize) -> (r: bool)
        ensures
            r == digit_at(self@, p as int),
    {
        p < self.bytes.len() && self.bytes[p] >= ZERO && self.bytes[p] <= NINE
    }

    /// The first offset at or after `start` that does not continue a name.
    pub fn name_end(&self, start: usize) -> (r: usize)
        requires
            start <= self@.len(),
        ensures
            r == name_end(self@, start as int),
            start <= r <= self@.len(),
    {
        let mut p = start;
        while p < self.bytes.len() && ((self.bytes[p] >= 0x41 && self.bytes[p] <= 0x5A) || (
        self.bytes[p] >= 0x61 && self.bytes[p] <= 0x7A) || self.bytes[p] == UNDERSCORE || (
        self.bytes[p] >= ZERO && self.bytes[p] <= NINE))
            invariant
                start <= p <= self@.len(),
                name_end(self@, start as int) == name_end(self@, p as int),
            decreases self@.len() - p,
        {
            p += 1;
        }
        p
    }

    /// The first offset at or after `start` that holds no digit.
    pub fn digits_end(&self, start: usize) -> (r: usize)
        requires
            start <= self@.len(),
        ensures
            r == digits_end(self@, start as int),
            start <= r <= self@.len(),
            forall|k: int| start <= k < r ==> is_digit(#[trigger] self@[k]),
    {
        let mut p = start;
        while p < self.bytes.len() && self.bytes[p] >= ZERO && self.bytes[p] <= NINE
            invariant
                start <= p <= self@.len(),
                digits_end(self@, start as int) == digits_end(self@, p as int),
                forall|k: int| start <= k < p ==> is_digit(#[trigger] self@[k]),
            decreases self@.len() - p,
        {
            p += 1;
        }
        p
    }

    /// The ASCII text between two offsets.
    pub fn ascii(&self, from: usize, to: usize) -> (r: String)
        requires
            from <= to <= self@.len(),
        ensures
            r@ == ascii_text(self@, from as int, to as int),
    {
        ascii_string(self.bytes, from, to)
    }

    /// The text between two offsets, where an ASCII byte stands at the
    /// first and another just before the second.
    pub fn slice(&self, from: usize, to: usize) -> (r: &'a str)
        requires
            self.wf(),
            from <= to <= self@.len(),
            from < self@.len() ==> self@[from as int] < 0x80,
            0 < to ==> self@[to - 1] < 0x80,
        ensures
            r@ == decode_utf8(self@.subrange(from as int, to as int)),
            r.spec_bytes() == self@.subrange(from as int, to as int),
            vstd::utf8::valid_utf8(self@.subrange(from as int, to as int)),
    {
        sub_text(self.text, from, to)
    }

    /// Where the string literal whose opening quote stands just before
    /// `start` ends, or where it breaks off.
    pub fn string_end(&self, start: usize) -> (r: Result<usize, usize>)
        requires
            start <= self@.len(),
        ensures
            match string_end(self@, start as int) {
                Ok(e) => r == Ok::<usize, usize>(e as usize) && start < e <= self@.len(),
                Err(e) => r == Err::<usize, usize>(e as usize) && start <= e <= self@.len(),
            },
    {
        let mut p = start;
        proof {
            lemma_string_end_bounds(self@, start as int);
        }
        loop
            invariant
                start <= p <= self@.len(),
                string_end(self@, start as int) == string_end(self@, p as int),
            decreases self@.len() - p,
        {
            proof {
                lemma_string_end_bounds(self@, p as int);
            }
            if p >= self.bytes.len() {
                return Err(p);
            }
            let b = self.bytes[p];
            if b == QUOTE {
                return Ok(p + 1);
            } else if b == LINE_FEED || b == CARRIAGE_RETURN {
                return Err(p);
            } else if b == BACKSLASH {
                if p + 1 >= self.bytes.len() {
                    return Err(p + 1);
                }
                p += 2;
            } else {
                p += 1;
            }
        }
    }
}

impl<'a> Source<'a> {
    fn exponent(&self, start: usize) -> (r: Result<usize, usize>)
        requires
            start < self@.len() < usize::MAX,
        ensures
            match exponent_end(self@, start as int) {
                Ok(e) => r == Ok::<usize, usize>(e as usize) && start < e <= self@.len(),
                Err(e) => r == Err::<usize, usize>(e as usize) && start <= e <= self@.len(),
            },
    {
        let q = if self.is(start + 1, PLUS) || self.is(start + 1, MINUS) {
            start + 2
        } else {
            start + 1
        };
        if self.digit_starts(q) {
            Ok(self.digits_end(q + 1))
        } else {
            Err(q)
        }
    }

    /// The number that begins at offset `start`: its end, and whether it
    /// is a floating-point number; or the offset at which a digit is
    /// missing.
    pub fn number(&self, start: usize) -> (r: Result<(usize, bool), usize>)
        requires
            start <= self@.len() < usize::MAX,
        ensures
            match number_at(self@, start as int) {
                Ok(n) => r == Ok::<(usize, bool), usize>((n.end as usize, n.float)) && start < n.end
                    <= self@.len(),
                Err(e) => r == Err::<(usize, bool), usize>(e as usize) && start <= e <= self@.len(),
            },
            r matches Ok((end, float)) ==> (!float ==> forall|k: int|
                (if byte_at(self@, start as int, MINUS) {
                    start + 1
                } else {
                    start as int
                }) <= k < end ==> is_digit(#[trigger] self@[k])),
    {
        let q = if self.is(start, MINUS) {
            start + 1
        } else {
            start
        };
        if !self.digit_starts(q) {
            return Err(q);
        }
        let whole = if self.bytes[q] == ZERO {
            q + 1
        } else {
            self.digits_end(q + 1)
        };
        if self.is(whole, DOT) {
            if !self.digit_starts(whole + 1) {
                return Err(whole + 1);
            }
            let fraction = self.digits_end(whole + 2);
            if self.is(fraction, 0x45) || self.is(fraction, 0x65) {
                match self.exponent(fraction) {
                    Ok(end) => Ok((end, true)),
                    Err(gap) => Err(gap),
                }
            } else {
                Ok((fraction, true))
            }
        } else if self.is(whole, 0x45) || self.is(whole, 0x65) {
            match self.exponent(whole) {
                Ok(end) => Ok((end, true)),
                Err(gap) => Err(gap),
            }
        } else {
            Ok((whole, false))
        }
    }

    /// The integer that the bytes between two offsets write, if it fits
    /// 64 bits with a sign.
    pub fn integer(&self, start: usize, end: usize) -> (r: Option<i64>)
        requires
            start < end <= self@.len(),
            forall|k: int|
                (if byte_at(self@, start as int, MINUS) {
                    start + 1
                } else {
                    start as int
                }) <= k < end ==> is_digit(#[trigger] self@[k]),
        ensures
            i64::MIN <= integer_value(self@, start as int, end as int) <= i64::MAX ==> r == Some(
                integer_value(self@, start as int, end as int) as i64,
            ),
            !(i64::MIN <= integer_value(self@, start as int, end as int) <= i64::MAX) ==> r
                is None,
    {
        let negative = self.is(start, MINUS);
        let first = if negative {
            start + 1
        } else {
            start
        };
        let limit: u128 = if negative {
            0x8000_0000_0000_0000
        } else {
            0x7FFF_FFFF_FFFF_FFFF
        };
        let mut acc: u128 = 0;
        let mut i = first;
        while i < end
            invariant
                first <= i <= end <= self@.len(),
                acc == digits_value(self@, first as int, i as int),
                acc <= limit <= 0x8000_0000_0000_0000,
                negative == byte_at(self@, start as int, MINUS),
                first == if negative {
                    start + 1
                } else {
                    start as int
                },
                limit == if negative {
                    0x8000_0000_0000_0000u128
                } else {
                    0x7FFF_FFFF_FFFF_FFFFu128
                },
                forall|k: int| first <= k < end ==> is_digit(#[trigger] self@[k]),
            decreases end - i,
        {
            let digit = (self.bytes[i] - ZERO) as u128;
            acc = acc * 10 + digit;
            i += 1;
            if acc > limit {
                proof {
                    lemma_digits_value_grows(self@, first as int, i as int, end as int);
                }
                return None;
            }
        }
        if negative {
            if acc == 0x8000_0000_0000_0000 {
                Some(i64::MIN)
            } else {
                Some(0 - (acc as i64))
            }
        } else {
            Some(acc as i64)
        }
    }
}

} // verus!
