//! The lexical classifier: the atomic tokens of the language.
//!
//! Each token has a rule, a specification function from the text and a
//! position to the token's value and the position after it, and a function
//! that computes what the rule says. A rule that does not match reports
//! where and what it missed, and consumes nothing.

use crate::error::{fail, fault, in_text, outcome, Expected, Failure, Parsed};
use crate::hir::{BStr, Char, Comment, Float, Ident, Int, Literal, Symbol, Text, Ty, UStr};
use crate::text::{
    at, byte_is, is_cut, is_digit, lemma_scan, scan, scan_class, slice, ByteClass,
};
use crate::view::{lines_view, CommentView, LiteralView};
use crate::words::{is_reserved, lemma_word_end, reserved, scan_word, word_end};
use vstd::prelude::*;
use vstd::string::StrSliceExecFns;
use vstd::string::StringSliceAdditionalSpecFns;
use vstd::utf8::{
    char_u32_cast, decode_first_scalar, encode_utf8, encode_utf8_first_scalar,
};

verus! {

/// An identifier: a word that is not reserved.
pub open spec fn ident_rule(s: Text, pos: int) -> Parsed<Text> {
    let end = word_end(s, pos);
    if end > pos && !is_reserved(s.subrange(pos, end)) {
        Ok((s.subrange(pos, end), end))
    } else {
        fault(pos, Expected::Identifier)
    }
}

/// Recognizes an identifier at `pos`.
pub fn parse_ident<'a>(src: &'a str, pos: usize) -> (r: Result<(Ident<'a>, usize), Failure>)
    requires
        pos <= src.spec_bytes().len(),
    ensures
        outcome(r) == ident_rule(src.spec_bytes(), pos as int),
        in_text(r, pos, src.spec_bytes()),
{
    let end = scan_word(src, pos);
    if end > pos {
        proof {
            lemma_word_end(src.spec_bytes(), pos as int);
        }
        let word = slice(src, pos, end);
        if !reserved(word.as_bytes()) {
            return Ok((Ident(word), end));
        }
    }
    fail(pos, Expected::Identifier)
}

/// Recognizes a type at `pos`: a type is written as an identifier is.
pub fn parse_ty<'a>(src: &'a str, pos: usize) -> (r: Result<(Ty<'a>, usize), Failure>)
    requires
        pos <= src.spec_bytes().len(),
    ensures
        outcome(r) == ident_rule(src.spec_bytes(), pos as int),
        in_text(r, pos, src.spec_bytes()),
{
    match parse_ident(src, pos) {
        Ok((name, next)) => Ok((Ty(name.0), next)),
        Err(failure) => Err(failure),
    }
}

/// A symbol: a colon followed by a word, of which the word is kept.
pub open spec fn symbol_rule(s: Text, pos: int) -> Parsed<Text> {
    if !byte_is(s, pos, ':' as u8) {
        fault(pos, Expected::Byte(':' as u8))
    } else if word_end(s, pos + 1) > pos + 1 {
        Ok((s.subrange(pos + 1, word_end(s, pos + 1)), word_end(s, pos + 1)))
    } else {
        fault(pos + 1, Expected::Identifier)
    }
}

/// Recognizes a symbol at `pos`.
pub fn parse_symbol<'a>(src: &'a str, pos: usize) -> (r: Result<(Symbol<'a>, usize), Failure>)
    requires
        pos <= src.spec_bytes().len(),
    ensures
        outcome(r) == symbol_rule(src.spec_bytes(), pos as int),
        in_text(r, pos, src.spec_bytes()),
{
    if !at(src, pos, ':' as u8) {
        return fail(pos, Expected::Byte(':' as u8));
    }
    let end = scan_word(src, pos + 1);
    if end > pos + 1 {
        proof {
            lemma_word_end(src.spec_bytes(), pos + 1);
        }
        Ok((Symbol(slice(src, pos + 1, end)), end))
    } else {
        fail(pos + 1, Expected::Identifier)
    }
}

/// The number that a run of decimal digits writes.
pub open spec fn digits_value(digits: Text) -> int
    decreases digits.len(),
{
    if digits.len() == 0 {
        0
    } else {
        digits_value(digits.drop_last()) * 10 + (digits.last() - '0' as u8)
    }
}

/// Where the digits of a number begin: after its sign, if it has one.
pub open spec fn digits_start(s: Text, pos: int) -> int {
    if byte_is(s, pos, '+' as u8) || byte_is(s, pos, '-' as u8) {
        pos + 1
    } else {
        pos
    }
}

/// Where the fraction that may begin at `pos` ends: a point and at least one
/// digit. Equal to `pos` where there is none.
pub open spec fn fraction_end(s: Text, pos: int) -> int {
    if byte_is(s, pos, '.' as u8) && scan(s, pos + 1, ByteClass::Digit) > pos + 1 {
        scan(s, pos + 1, ByteClass::Digit)
    } else {
        pos
    }
}

/// Where the exponent that may begin at `pos` ends: `e` or `E`, a sign or
/// none, and at least one digit. Equal to `pos` where there is none.
pub open spec fn exponent_end(s: Text, pos: int) -> int {
    if byte_is(s, pos, 'e' as u8) || byte_is(s, pos, 'E' as u8) {
        let digits = digits_start(s, pos + 1);
        if scan(s, digits, ByteClass::Digit) > digits {
            scan(s, digits, ByteClass::Digit)
        } else {
            pos
        }
    } else {
        pos
    }
}

/// A number: a sign or none, digits, and then a fraction, an exponent, both
/// or neither. With neither it is an integer, which must fit 64 bits; with
/// either it is a float, kept as written.
pub open spec fn number_rule(s: Text, pos: int) -> Parsed<LiteralView> {
    let first = digits_start(s, pos);
    let whole = scan(s, first, ByteClass::Digit);
    let end = exponent_end(s, fraction_end(s, whole));
    if whole <= first {
        fault(first, Expected::Digits)
    } else if end > whole {
        Ok((LiteralView::Float(s.subrange(pos, end)), end))
    } else {
        let magnitude = digits_value(s.subrange(first, whole));
        let value = if byte_is(s, pos, '-' as u8) {
            -magnitude
        } else {
            magnitude
        };
        if i64::MIN <= value <= i64::MAX {
            Ok((LiteralView::Int(value as i64, s.subrange(pos, whole)), whole))
        } else {
            fault(pos, Expected::IntegerInRange)
        }
    }
}

/// The value of a run of digits is not negative, and grows with the run.
pub proof fn lemma_digits_value(s: Text, from: int, to: int)
    requires
        0 <= from <= to < s.len(),
        forall|k: int| from <= k <= to ==> is_digit(#[trigger] s[k]),
    ensures
        digits_value(s.subrange(from, to)) >= 0,
        digits_value(s.subrange(from, to + 1)) == digits_value(s.subrange(from, to)) * 10 + (s[to]
            - '0' as u8),
    decreases to - from,
{
    assert(s.subrange(from, to + 1).drop_last() =~= s.subrange(from, to));
    if from < to {
        lemma_digits_value(s, from, to - 1);
    }
}

/// Computes the value of the digits between `from` and `to`, or `None` where
/// it is greater than 2^63.
fn digits_magnitude(src: &str, from: usize, to: usize) -> (r: Option<u64>)
    requires
        from <= to <= src.spec_bytes().len(),
        forall|k: int| from <= k < to ==> is_digit(#[trigger] src.spec_bytes()[k]),
    ensures
        match r {
            Some(m) => m == digits_value(src.spec_bytes().subrange(from as int, to as int)) && m
                <= 0x8000_0000_0000_0000,
            None => digits_value(src.spec_bytes().subrange(from as int, to as int))
                > 0x8000_0000_0000_0000,
        },
{
    let bytes = src.as_bytes();
    let mut acc: u64 = 0;
    let mut over = false;
    let mut i: usize = from;
    while i < to
        invariant
            bytes@ == src.spec_bytes(),
            from <= i <= to <= bytes@.len(),
            forall|k: int| from <= k < to ==> is_digit(#[trigger] bytes@[k]),
            !over ==> acc == digits_value(bytes@.subrange(from as int, i as int)),
            acc <= 0x8000_0000_0000_0000,
            over ==> digits_value(bytes@.subrange(from as int, i as int)) > 0x8000_0000_0000_0000,
        decreases to - i,
    {
        proof {
            lemma_digits_value(bytes@, from as int, i as int);
        }
        let digit: u64 = (bytes[i] - '0' as u8) as u64;
        if !over {
            if acc <= 922337203685477580 {
                let next: u64 = acc * 10 + digit;
                if next > 0x8000_0000_0000_0000 {
                    over = true;
                } else {
                    acc = next;
                }
            } else {
                over = true;
            }
        }
        i += 1;
    }
    if over {
        None
    } else {
        Some(acc)
    }
}

/// Recognizes a number at `pos`.
pub fn parse_number<'a>(src: &'a str, pos: usize) -> (r: Result<(Literal<'a>, usize), Failure>)
    requires
        pos <= src.spec_bytes().len(),
    ensures
        outcome(r) == number_rule(src.spec_bytes(), pos as int),
        in_text(r, pos, src.spec_bytes()),
{
    let ghost s = src.spec_bytes();
    let negative = at(src, pos, '-' as u8);
    let first = if negative || at(src, pos, '+' as u8) {
        pos + 1
    } else {
        pos
    };
    let whole = scan_class(src, first, ByteClass::Digit);
    if whole <= first {
        return fail(first, Expected::Digits);
    }
    proof {
        lemma_scan(s, first as int, ByteClass::Digit);
        assert(ByteClass::Digit.has(s[first as int]));
        assert(ByteClass::Digit.has(s[whole - 1]));
    }
    let mut end = whole;
    if at(src, whole, '.' as u8) {
        let fraction = scan_class(src, whole + 1, ByteClass::Digit);
        if fraction > whole + 1 {
            proof {
                lemma_scan(s, whole + 1, ByteClass::Digit);
                assert(ByteClass::Digit.has(s[fraction - 1]));
            }
            end = fraction;
        }
    }
    assert(end == fraction_end(s, whole as int));
    if at(src, end, 'e' as u8) || at(src, end, 'E' as u8) {
        let digits = if at(src, end + 1, '-' as u8) || at(src, end + 1, '+' as u8) {
            end + 2
        } else {
            end + 1
        };
        let exponent = scan_class(src, digits, ByteClass::Digit);
        if exponent > digits {
            proof {
                lemma_scan(s, digits as int, ByteClass::Digit);
                assert(ByteClass::Digit.has(s[exponent - 1]));
            }
            end = exponent;
        }
    }
    assert(end == exponent_end(s, fraction_end(s, whole as int)));
    assert(is_cut(s, pos as int));
    assert(is_cut(s, end as int));
    let text = slice(src, pos, end);
    if end > whole {
        return Ok((Literal::Float(Float(text)), end));
    }
    match digits_magnitude(src, first, whole) {
        Some(m) => {
            if negative {
                if m == 0x8000_0000_0000_0000 {
                    Ok((Literal::Int(Int(i64::MIN, text)), end))
                } else {
                    Ok((Literal::Int(Int(-(m as i64), text)), end))
                }
            } else if m < 0x8000_0000_0000_0000 {
                Ok((Literal::Int(Int(m as i64, text)), end))
            } else {
                fail(pos, Expected::IntegerInRange)
            }
        },
        None => fail(pos, Expected::IntegerInRange),
    }
}

/// A string: the text between two double quotes on one line.
pub open spec fn ustr_rule(s: Text, pos: int) -> Parsed<Text> {
    let end = scan(s, pos + 1, ByteClass::StringBody);
    if !byte_is(s, pos, '"' as u8) {
        fault(pos, Expected::Byte('"' as u8))
    } else if byte_is(s, end, '"' as u8) {
        Ok((s.subrange(pos + 1, end), end + 1))
    } else {
        fault(pos, Expected::ClosingQuote)
    }
}

/// Recognizes a string at `pos`. A string that is never closed fails at
/// its opening quote.
pub fn parse_ustr<'a>(src: &'a str, pos: usize) -> (r: Result<(UStr<'a>, usize), Failure>)
    requires
        pos <= src.spec_bytes().len(),
    ensures
        outcome(r) == ustr_rule(src.spec_bytes(), pos as int),
        in_text(r, pos, src.spec_bytes()),
{
    if !at(src, pos, '"' as u8) {
        return fail(pos, Expected::Byte('"' as u8));
    }
    let end = scan_class(src, pos + 1, ByteClass::StringBody);
    if at(src, end, '"' as u8) {
        Ok((UStr(slice(src, pos + 1, end)), end + 1))
    } else {
        fail(pos, Expected::ClosingQuote)
    }
}

/// A byte string: `b`, then ASCII text between two double quotes on one
/// line. Its value is the bytes between the quotes.
pub open spec fn bstr_rule(s: Text, pos: int) -> Parsed<(Text, Text)> {
    let ascii = scan(s, pos + 2, ByteClass::AsciiBody);
    let end = scan(s, ascii, ByteClass::StringBody);
    if !byte_is(s, pos, 'b' as u8) {
        fault(pos, Expected::Byte('b' as u8))
    } else if !byte_is(s, pos + 1, '"' as u8) {
        fault(pos + 1, Expected::Byte('"' as u8))
    } else if !byte_is(s, end, '"' as u8) {
        fault(pos + 1, Expected::ClosingQuote)
    } else if ascii < end {
        fault(ascii, Expected::Ascii)
    } else {
        Ok(((s.subrange(pos + 2, end), s.subrange(pos, end + 1)), end + 1))
    }
}

/// Recognizes a byte string at `pos`. One that holds a character outside
/// ASCII fails at that character.
pub fn parse_bstr<'a>(src: &'a str, pos: usize) -> (r: Result<(BStr<'a>, usize), Failure>)
    requires
        pos <= src.spec_bytes().len(),
    ensures
        outcome(r) == bstr_rule(src.spec_bytes(), pos as int),
        in_text(r, pos, src.spec_bytes()),
{
    if !at(src, pos, 'b' as u8) {
        return fail(pos, Expected::Byte('b' as u8));
    }
    if !at(src, pos + 1, '"' as u8) {
        return fail(pos + 1, Expected::Byte('"' as u8));
    }
    let ascii = scan_class(src, pos + 2, ByteClass::AsciiBody);
    let end = scan_class(src, ascii, ByteClass::StringBody);
    if !at(src, end, '"' as u8) {
        fail(pos + 1, Expected::ClosingQuote)
    } else if ascii < end {
        fail(ascii, Expected::Ascii)
    } else {
        let body = slice(src, pos + 2, end);
        let whole = slice(src, pos, end + 1);
        Ok((BStr(body.as_bytes(), whole), end + 1))
    }
}

/// The number of bytes of the character that begins with the byte `lead`;
/// zero where no character begins with it.
pub open spec fn scalar_width(lead: u8) -> int {
    if lead < 0x80 {
        1
    } else if 0xc0 <= lead <= 0xdf {
        2
    } else if 0xe0 <= lead <= 0xef {
        3
    } else if 0xf0 <= lead <= 0xf7 {
        4
    } else {
        0
    }
}

/// A character: exactly one Unicode scalar value between two single quotes.
pub open spec fn char_rule(s: Text, pos: int) -> Parsed<(char, Text)> {
    if !byte_is(s, pos, '\'' as u8) {
        fault(pos, Expected::Byte('\'' as u8))
    } else if pos + 1 >= s.len() || scalar_width(s[pos + 1]) == 0 || !byte_is(
        s,
        pos + 1 + scalar_width(s[pos + 1]),
        '\'' as u8,
    ) {
        fault(pos + 1, Expected::Character)
    } else {
        let width = scalar_width(s[pos + 1]);
        Ok(
            (
                (
                    decode_first_scalar(s.subrange(pos + 1, pos + 1 + width)) as char,
                    s.subrange(pos, pos + 2 + width),
                ),
                pos + 2 + width,
            ),
        )
    }
}

/// Recognizes a character literal at `pos`.
pub fn parse_char<'a>(src: &'a str, pos: usize) -> (r: Result<(Char<'a>, usize), Failure>)
    requires
        pos <= src.spec_bytes().len(),
    ensures
        outcome(r) == char_rule(src.spec_bytes(), pos as int),
        in_text(r, pos, src.spec_bytes()),
{
    if !at(src, pos, '\'' as u8) {
        return fail(pos, Expected::Byte('\'' as u8));
    }
    let bytes = src.as_bytes();
    if pos + 1 >= bytes.len() {
        return fail(pos + 1, Expected::Character);
    }
    let lead = bytes[pos + 1];
    let width: usize = if lead < 0x80 {
        1
    } else if 0xc0 <= lead && lead <= 0xdf {
        2
    } else if 0xe0 <= lead && lead <= 0xef {
        3
    } else if 0xf0 <= lead && lead <= 0xf7 {
        4
    } else {
        0
    };
    if width == 0 || bytes.len() - pos - 1 <= width || bytes[pos + 1 + width] != '\'' as u8 {
        return fail(pos + 1, Expected::Character);
    }
    let inner = slice(src, pos + 1, pos + 1 + width);
    proof {
        if inner@.len() == 0 {
            assert(encode_utf8(inner@) =~= Seq::<u8>::empty());
        }
        encode_utf8_first_scalar(inner@);
        char_u32_cast(inner@[0], decode_first_scalar(inner.spec_bytes()));
    }
    let value = inner.get_char(0);
    let whole = slice(src, pos, pos + 2 + width);
    proof {
        crate::text::lemma_source_is_utf8(src);
        crate::text::lemma_edge_after_ascii(src.spec_bytes(), pos + 2 + width);
    }
    Ok((Char(value, whole), pos + 2 + width))
}

/// Whether the comment marker `//` stands at `pos`.
pub open spec fn has_marker(s: Text, pos: int) -> bool {
    byte_is(s, pos, '/' as u8) && byte_is(s, pos + 1, '/' as u8)
}

/// Where a comment whose line ends at `end` goes on: the marker that opens
/// the next line, if that line begins with one.
pub open spec fn next_marker(s: Text, end: int) -> Option<int> {
    let line_break = if byte_is(s, end, '\r' as u8) {
        end + 1
    } else {
        end
    };
    let next = scan(s, line_break + 1, ByteClass::Inline);
    if byte_is(s, line_break, '\n' as u8) && has_marker(s, next) {
        Some(next)
    } else {
        None
    }
}

/// The lines of the comment whose marker stands at `pos`, each without its
/// marker and without its line break, and the position after the last.
pub open spec fn comment_lines(s: Text, pos: int) -> (Seq<Text>, int)
    decreases s.len() - pos,
{
    let end = scan(s, pos + 2, ByteClass::LineBody);
    let line = s.subrange(pos + 2, end);
    match next_marker(s, end) {
        Some(next) if pos < next < s.len() => (
            seq![line] + comment_lines(s, next).0,
            comment_lines(s, next).1,
        ),
        _ => (seq![line], end),
    }
}

/// A comment: one line that begins with the marker, or several such lines
/// in a row, which make one comment.
pub open spec fn comment_rule(s: Text, pos: int) -> Parsed<CommentView> {
    if !has_marker(s, pos) {
        fault(pos, Expected::Comment)
    } else {
        let (lines, end) = comment_lines(s, pos);
        if lines.len() == 1 {
            Ok((CommentView::SingleLine(lines[0]), end))
        } else {
            Ok((CommentView::MultiLine(lines), end))
        }
    }
}

/// Finds the marker that opens the line after `end`, if that line begins
/// with one.
fn find_next_marker(src: &str, end: usize) -> (r: Option<usize>)
    requires
        end <= src.spec_bytes().len(),
    ensures
        r matches Some(next) ==> end < next < src.spec_bytes().len(),
        match r {
            Some(next) => next_marker(src.spec_bytes(), end as int) == Some(next as int),
            None => next_marker(src.spec_bytes(), end as int) is None,
        },
{
    let line_break = if at(src, end, '\r' as u8) {
        end + 1
    } else {
        end
    };
    if !at(src, line_break, '\n' as u8) {
        return None;
    }
    let next = scan_class(src, line_break + 1, ByteClass::Inline);
    if at(src, next, '/' as u8) && at(src, next + 1, '/' as u8) {
        Some(next)
    } else {
        None
    }
}

/// Recognizes a comment at `pos`.
pub fn parse_comment<'a>(src: &'a str, pos: usize) -> (r: Result<(Comment<'a>, usize), Failure>)
    requires
        pos <= src.spec_bytes().len(),
    ensures
        outcome(r) == comment_rule(src.spec_bytes(), pos as int),
        in_text(r, pos, src.spec_bytes()),
{
    let ghost s = src.spec_bytes();
    if !(at(src, pos, '/' as u8) && at(src, pos + 1, '/' as u8)) {
        return fail(pos, Expected::Comment);
    }
    let first_end = scan_class(src, pos + 2, ByteClass::LineBody);
    proof {
        lemma_scan(s, pos + 2, ByteClass::LineBody);
    }
    let first = slice(src, pos + 2, first_end);
    let mut lines: Vec<&'a str> = Vec::new();
    lines.push(first);
    let mut end = first_end;
    let mut marker = find_next_marker(src, end);
    let ghost mut cur = pos as int;
    while marker.is_some()
        invariant
            s == src.spec_bytes(),
            pos <= cur < end <= s.len() <= usize::MAX,
            crate::text::is_edge(s, end as int),
            has_marker(s, cur),
            end == scan(s, cur + 2, ByteClass::LineBody),
            lines@.len() >= 1,
            lines@[0] == first,
            match marker {
                Some(next) => next_marker(s, end as int) == Some(next as int) && end < next
                    < s.len(),
                None => next_marker(s, end as int) is None,
            },
            comment_lines(s, pos as int).0 == lines_view(lines@).drop_last() + comment_lines(
                s,
                cur,
            ).0,
            comment_lines(s, pos as int).1 == comment_lines(s, cur).1,
            lines_view(lines@).last() == s.subrange(cur + 2, end as int),
        decreases s.len() - end,
    {
        let next = marker.unwrap();
        let line_end = scan_class(src, next + 2, ByteClass::LineBody);
        proof {
            lemma_scan(s, next + 2, ByteClass::LineBody);
        }
        let line = slice(src, next + 2, line_end);
        let ghost before = lines_view(lines@);
        lines.push(line);
        proof {
            let after = lines_view(lines@);
            assert(after.drop_last() =~= before);
            assert(before =~= before.drop_last() + seq![before.last()]);
            assert(comment_lines(s, cur).0 == seq![before.last()] + comment_lines(
                s,
                next as int,
            ).0);
            assert(before.drop_last() + (seq![before.last()] + comment_lines(s, next as int).0)
                =~= before + comment_lines(s, next as int).0);
            cur = next as int;
        }
        end = line_end;
        marker = find_next_marker(src, end);
    }
    proof {
        let view = lines_view(lines@);
        assert(comment_lines(s, cur).0 == seq![view.last()]);
        assert(view =~= view.drop_last() + seq![view.last()]);
        assert(comment_lines(s, pos as int) == (view, end as int));
        assert(view[0] == first.spec_bytes());
    }
    if lines.len() == 1 {
        Ok((Comment::SingleLine(first), end))
    } else {
        Ok((Comment::MultiLine(lines), end))
    }
}

} // verus!
