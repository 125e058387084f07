//! Line and column of a byte offset, computed by a forward-only cursor.

use crate::pos::Pos;
use vstd::prelude::*;
use vstd::string::StringSliceAdditionalSpecFns;

verus! {

/// The line feed byte.
pub const LINE_FEED: u8 = 10;

/// Whether `b` continues a multi-byte UTF-8 character rather than starting
/// one.
pub open spec fn is_continuation(b: u8) -> bool {
    0x80 <= b <= 0xBF
}

/// The number of line feeds among the first `off` bytes of `s`.
pub open spec fn newlines(s: Seq<u8>, off: int) -> nat
    decreases off,
{
    if off <= 0 {
        0
    } else {
        newlines(s, off - 1) + if s[off - 1] == LINE_FEED {
            1nat
        } else {
            0nat
        }
    }
}

/// The offset at which the line that holds offset `off` begins: just after
/// the last line feed before `off`, or 0.
pub open spec fn line_start(s: Seq<u8>, off: int) -> int
    decreases off,
{
    if off <= 0 {
        0
    } else if s[off - 1] == LINE_FEED {
        off
    } else {
        line_start(s, off - 1)
    }
}

/// The number of characters that begin in `s[from..to]`.
pub open spec fn chars_between(s: Seq<u8>, from: int, to: int) -> nat
    decreases to - from,
{
    if to <= from {
        0
    } else {
        chars_between(s, from, to - 1) + if is_continuation(s[to - 1]) {
            0nat
        } else {
            1nat
        }
    }
}

/// The line of offset `off`, counting from 1. A carriage return followed by
/// a line feed ends one line, not two; a carriage return alone ends none.
pub open spec fn line_at(s: Seq<u8>, off: int) -> nat {
    1 + newlines(s, off)
}

/// The column of offset `off`, counting characters from 1 at the start of
/// its line.
pub open spec fn column_at(s: Seq<u8>, off: int) -> nat {
    1 + chars_between(s, line_start(s, off), off)
}

/// The position of offset `off` in `s`. Offsets past the end have the
/// position of the end.
pub open spec fn pos_at(s: Seq<u8>, off: int) -> Pos {
    let at = if off <= s.len() {
        off
    } else {
        s.len() as int
    };
    Pos { line: line_at(s, at) as usize, column: column_at(s, at) as usize }
}

/// A line start is never after the offset it is taken of.
pub proof fn lemma_line_start_bounds(s: Seq<u8>, off: int)
    requires
        0 <= off,
    ensures
        0 <= line_start(s, off) <= off,
    decreases off,
{
    if off > 0 && s[off - 1] != LINE_FEED {
        lemma_line_start_bounds(s, off - 1);
    }
}

/// Lines and columns together never count more than the bytes passed.
pub proof fn lemma_pos_bounds(s: Seq<u8>, off: int)
    requires
        0 <= off,
    ensures
        newlines(s, off) + chars_between(s, line_start(s, off), off) <= off,
    decreases off,
{
    if off > 0 {
        lemma_pos_bounds(s, off - 1);
        lemma_line_start_bounds(s, off - 1);
    }
}

/// A cursor over source text that reports the position of each offset it
/// is moved to. Offsets must not decrease from one call to the next, which
/// keeps the work of all calls together linear in the length of the text.
pub struct PositionCalculator<'a> {
    input: &'a [u8],
    pos: usize,
    line: usize,
    column: usize,
}

impl<'a> PositionCalculator<'a> {
    /// The bytes of the text that the cursor walks.
    pub closed spec fn source(&self) -> Seq<u8> {
        self.input@
    }

    /// The offset that the cursor has reached.
    pub closed spec fn offset(&self) -> int {
        self.pos as int
    }

    /// The cursor's line and column are those of its offset.
    pub closed spec fn wf(&self) -> bool {
        &&& self.input@.len() < usize::MAX
        &&& self.pos <= self.input@.len()
        &&& self.line == line_at(self.input@, self.pos as int)
        &&& self.column == column_at(self.input@, self.pos as int)
    }

    /// A cursor at the start of `input`: offset 0, line 1, column 1.
    pub fn new(input: &'a str) -> (r: Self)
        requires
            input.spec_bytes().len() < usize::MAX,
        ensures
            r.wf(),
            r.source() == input.spec_bytes(),
            r.offset() == 0,
    {
        PositionCalculator { input: input.as_bytes(), pos: 0, line: 1, column: 1 }
    }

    /// Moves the cursor forward to `offset` and returns the position there.
    /// An offset past the end of the text moves the cursor to the end.
    pub fn step(&mut self, offset: usize) -> (r: Pos)
        requires
            old(self).wf(),
            old(self).offset() <= offset,
        ensures
            final(self).wf(),
            final(self).source() == old(self).source(),
            final(self).offset() == if offset <= old(self).source().len() {
                offset as int
            } else {
                old(self).source().len() as int
            },
            r == pos_at(old(self).source(), offset as int),
    {
        let target = if offset <= self.input.len() {
            offset
        } else {
            self.input.len()
        };
        while self.pos < target
            invariant
                self.wf(),
                self.input == old(self).input,
                self.pos <= target <= self.input@.len(),
            decreases target - self.pos,
        {
            proof {
                lemma_pos_bounds(self.input@, self.pos as int);
                lemma_line_start_bounds(self.input@, self.pos as int);
            }
            let b = self.input[self.pos];
            if b == LINE_FEED {
                self.line += 1;
                self.column = 1;
            } else if !(0x80 <= b && b <= 0xBF) {
                self.column += 1;
            }
            self.pos += 1;
        }
        Pos { line: self.line, column: self.column }
    }
}

/// Characters that begin in two stretches of text that meet are counted
/// one stretch after the other.
pub proof fn lemma_chars_between_adds(s: Seq<u8>, from: int, mid: int, to: int)
    requires
        from <= mid <= to,
    ensures
        chars_between(s, from, to) == chars_between(s, from, mid) + chars_between(s, mid, to),
    decreases to - mid,
{
    if mid < to {
        lemma_chars_between_adds(s, from, mid, to - 1);
    }
}

/// Counting in a part of the text is counting in the part alone.
pub proof fn lemma_chars_between_in_part(s: Seq<u8>, from: int, to: int, n: int)
    requires
        0 <= from <= to <= s.len(),
        0 <= n <= to - from,
    ensures
        chars_between(s, from, from + n) == chars_between(s.subrange(from, to), 0, n),
    decreases n,
{
    if n > 0 {
        lemma_chars_between_in_part(s, from, to, n - 1);
        assert(s.subrange(from, to)[n - 1] == s[from + n - 1]);
    }
}

/// In well-formed UTF-8, as many characters begin in a text as the text
/// decodes to.
pub proof fn lemma_chars_between_counts_decoded(t: Seq<u8>)
    requires
        vstd::utf8::valid_utf8(t),
    ensures
        chars_between(t, 0, t.len() as int) == vstd::utf8::decode_utf8(t).len(),
    decreases t.len(),
{
    if t.len() > 0 {
        let width = vstd::utf8::length_of_first_scalar(t);
        let rest = vstd::utf8::pop_first_scalar(t);
        assert(vstd::utf8::valid_first_scalar(t));
        assert(1 <= width <= 4 && width <= t.len());
        assert(rest == t.subrange(width, t.len() as int));
        lemma_chars_between_counts_decoded(rest);
        lemma_chars_between_adds(t, 0, width, t.len() as int);
        lemma_chars_between_in_part(t, width, t.len() as int, t.len() - width);
        assert(chars_between(t, 0, width) == 1) by {
            reveal_with_fuel(chars_between, 5);
        }
        assert(vstd::utf8::decode_utf8(t).len() == 1 + vstd::utf8::decode_utf8(rest).len());
    }
}

/// In well-formed UTF-8, the column of an offset at which a character
/// begins is one more than the number of characters between the start of
/// its line and the offset.
pub proof fn lemma_column_counts_characters(s: Seq<u8>, off: int)
    requires
        vstd::utf8::valid_utf8(s),
        0 <= off <= s.len(),
        vstd::utf8::is_char_boundary(s, off),
    ensures
        0 <= line_start(s, off) <= off,
        column_at(s, off) == 1 + vstd::utf8::decode_utf8(
            s.subrange(line_start(s, off), off),
        ).len(),
{
    let begin = line_start(s, off);
    lemma_line_start_bounds(s, off);
    lemma_line_start_is_boundary(s, off);
    vstd::utf8::valid_utf8_split(s, off);
    let head = s.subrange(0, off);
    assert(forall|k: int| 0 <= k < begin ==> head[k] == s[k]);
    lemma_boundary_in_prefix(s, off, begin);
    vstd::utf8::valid_utf8_split(head, begin);
    let part = head.subrange(begin, off);
    assert(part =~= s.subrange(begin, off));
    lemma_chars_between_in_part(s, begin, off, off - begin);
    lemma_chars_between_counts_decoded(part);
}

/// In well-formed UTF-8 a character begins at the start of every line.
pub proof fn lemma_line_start_is_boundary(s: Seq<u8>, off: int)
    requires
        vstd::utf8::valid_utf8(s),
        0 <= off <= s.len(),
    ensures
        vstd::utf8::is_char_boundary(s, line_start(s, off)),
    decreases off,
{
    if off <= 0 {
        vstd::utf8::is_char_boundary_start_end_of_seq(s);
    } else if s[off - 1] == LINE_FEED {
        crate::text::lemma_boundary_after_ascii(s, off - 1);
    } else {
        lemma_line_start_is_boundary(s, off - 1);
    }
}

/// A place where a character begins in a text is one in every prefix of
/// the text that ends where a character begins.
pub proof fn lemma_boundary_in_prefix(s: Seq<u8>, end: int, index: int)
    requires
        vstd::utf8::valid_utf8(s),
        0 <= index <= end <= s.len(),
        vstd::utf8::is_char_boundary(s, end),
        vstd::utf8::is_char_boundary(s, index),
    ensures
        vstd::utf8::is_char_boundary(s.subrange(0, end), index),
{
    vstd::utf8::valid_utf8_split(s, end);
    let head = s.subrange(0, end);
    if index < end {
        vstd::utf8::is_char_boundary_iff_not_is_continuation_byte(s, index);
        assert(head[index] == s[index]);
        vstd::utf8::is_char_boundary_iff_not_is_continuation_byte(head, index);
    } else {
        vstd::utf8::is_char_boundary_start_end_of_seq(head);
    }
}

/// The number of line feeds among the characters `chars`.
pub open spec fn line_feeds(chars: Seq<char>) -> nat
    decreases chars.len(),
{
    if chars.len() == 0 {
        0
    } else {
        line_feeds(chars.drop_first()) + if chars[0] == '\n' {
            1nat
        } else {
            0nat
        }
    }
}

/// The number of line feeds among the bytes `s[from..to]`.
pub open spec fn newlines_between(s: Seq<u8>, from: int, to: int) -> nat
    decreases to - from,
{
    if to <= from {
        0
    } else {
        newlines_between(s, from, to - 1) + if s[to - 1] == LINE_FEED {
            1nat
        } else {
            0nat
        }
    }
}

/// The line feeds before an offset are those between the start of the
/// text and the offset.
pub proof fn lemma_newlines_from_start(s: Seq<u8>, off: int)
    requires
        0 <= off,
    ensures
        newlines(s, off) == newlines_between(s, 0, off),
    decreases off,
{
    if off > 0 {
        lemma_newlines_from_start(s, off - 1);
    }
}

/// Line feeds in two stretches of text that meet are counted one stretch
/// after the other.
pub proof fn lemma_newlines_between_adds(s: Seq<u8>, from: int, mid: int, to: int)
    requires
        from <= mid <= to,
    ensures
        newlines_between(s, from, to) == newlines_between(s, from, mid) + newlines_between(
            s,
            mid,
            to,
        ),
    decreases to - mid,
{
    if mid < to {
        lemma_newlines_between_adds(s, from, mid, to - 1);
    }
}

/// Counting line feeds in a part of the text is counting in the part
/// alone.
pub proof fn lemma_newlines_between_in_part(s: Seq<u8>, from: int, to: int, n: int)
    requires
        0 <= from <= to <= s.len(),
        0 <= n <= to - from,
    ensures
        newlines_between(s, from, from + n) == newlines_between(s.subrange(from, to), 0, n),
    decreases n,
{
    if n > 0 {
        lemma_newlines_between_in_part(s, from, to, n - 1);
        assert(s.subrange(from, to)[n - 1] == s[from + n - 1]);
    }
}

/// In well-formed UTF-8, a text holds as many line feed bytes as it
/// decodes to line feed characters.
pub proof fn lemma_newlines_count_decoded(t: Seq<u8>)
    requires
        vstd::utf8::valid_utf8(t),
    ensures
        newlines_between(t, 0, t.len() as int) == line_feeds(vstd::utf8::decode_utf8(t)),
    decreases t.len(),
{
    if t.len() > 0 {
        let width = vstd::utf8::length_of_first_scalar(t);
        let rest = vstd::utf8::pop_first_scalar(t);
        let first = vstd::utf8::decode_first_scalar(t);
        assert(vstd::utf8::valid_first_scalar(t));
        assert(1 <= width <= 4 && width <= t.len());
        assert(rest == t.subrange(width, t.len() as int));
        lemma_newlines_count_decoded(rest);
        lemma_newlines_between_adds(t, 0, width, t.len() as int);
        lemma_newlines_between_in_part(t, width, t.len() as int, t.len() - width);
        let b = t[0];
        assert(b < 0x80 ==> b & 0x7F == b) by (bit_vector);
        assert(newlines_between(t, 0, width) == if first == 10 {
            1nat
        } else {
            0nat
        }) by {
            reveal_with_fuel(newlines_between, 5);
        }
        let decoded = vstd::utf8::decode_utf8(t);
        assert(decoded.len() > 0);
        assert(decoded.drop_first() =~= vstd::utf8::decode_utf8(rest));
        vstd::utf8::decode_utf8_encode_utf8(t);
        vstd::utf8::encode_utf8_first_scalar(decoded);
        assert(first == decoded[0] as u32);
    }
}

/// In well-formed UTF-8, the line of an offset at which a character
/// begins is one more than the number of line feed characters before it.
pub proof fn lemma_line_counts_line_feeds(s: Seq<u8>, off: int)
    requires
        vstd::utf8::valid_utf8(s),
        0 <= off <= s.len(),
        vstd::utf8::is_char_boundary(s, off),
    ensures
        line_at(s, off) == 1 + line_feeds(vstd::utf8::decode_utf8(s.subrange(0, off))),
{
    lemma_newlines_from_start(s, off);
    vstd::utf8::valid_utf8_split(s, off);
    lemma_newlines_between_in_part(s, 0, off, off);
    lemma_newlines_count_decoded(s.subrange(0, off));
}

} // verus!
