//! Byte-level access to the source buffer: character classes, scanning and
//! borrowing sub-slices.

use vstd::prelude::*;
use vstd::string::StringSliceAdditionalSpecFns;
use vstd::utf8::*;

verus! {

/// `[a-zA-Z]`
pub open spec fn is_alpha(b: u8) -> bool {
    ('a' as u8 <= b && b <= 'z' as u8) || ('A' as u8 <= b && b <= 'Z' as u8)
}

/// `[0-9]`
pub open spec fn is_digit(b: u8) -> bool {
    '0' as u8 <= b && b <= '9' as u8
}

/// The extra characters an identifier may hold after its first letter.
pub open spec fn is_ident_mark(b: u8) -> bool {
    b == '-' as u8 || b == '_' as u8 || b == '+' as u8 || b == '>' as u8 || b == '<' as u8 || b
        == '*' as u8
}

/// Any character an identifier may hold after its first letter.
pub open spec fn is_ident_tail(b: u8) -> bool {
    is_alpha(b) || is_digit(b) || is_ident_mark(b)
}

/// Space, tab or carriage return: white space that does not end a line.
pub open spec fn is_inline_space(b: u8) -> bool {
    b == ' ' as u8 || b == '\t' as u8 || b == '\r' as u8
}

/// The classes of bytes that the lexical rules scan over.
#[derive(Clone, Copy, Debug, PartialEq, Eq)]
pub enum ByteClass {
    /// White space within a line.
    Inline,
    /// White space including line breaks.
    Blank,
    /// Characters of an identifier after the first.
    IdentTail,
    /// Decimal digits.
    Digit,
    /// Anything that may stand inside a string literal.
    StringBody,
    /// Anything that may stand inside a byte string literal.
    AsciiBody,
    /// Anything up to the end of the line.
    LineBody,
    /// Characters of a path glob.
    PathChar,
}

impl ByteClass {
    /// Whether the class holds the byte.
    pub open spec fn has(self, b: u8) -> bool {
        match self {
            ByteClass::Inline => is_inline_space(b),
            ByteClass::Blank => is_inline_space(b) || b == '\n' as u8,
            ByteClass::IdentTail => is_ident_tail(b),
            ByteClass::Digit => is_digit(b),
            ByteClass::StringBody => b != '"' as u8 && b != '\n' as u8,
            ByteClass::AsciiBody => b != '"' as u8 && b != '\n' as u8 && b < 0x80,
            ByteClass::LineBody => b != '\n' as u8 && b != '\r' as u8,
            ByteClass::PathChar => is_ident_tail(b) || b == '/' as u8 || b == '.' as u8,
        }
    }

    /// Whether the class holds the byte.
    pub fn contains(&self, b: u8) -> (r: bool)
        ensures
            r == self.has(b),
    {
        let alpha = ('a' as u8 <= b && b <= 'z' as u8) || ('A' as u8 <= b && b <= 'Z' as u8);
        let digit = '0' as u8 <= b && b <= '9' as u8;
        let mark = b == '-' as u8 || b == '_' as u8 || b == '+' as u8 || b == '>' as u8 || b
            == '<' as u8 || b == '*' as u8;
        let inline = b == ' ' as u8 || b == '\t' as u8 || b == '\r' as u8;
        match self {
            ByteClass::Inline => inline,
            ByteClass::Blank => inline || b == '\n' as u8,
            ByteClass::IdentTail => alpha || digit || mark,
            ByteClass::Digit => digit,
            ByteClass::StringBody => b != '"' as u8 && b != '\n' as u8,
            ByteClass::AsciiBody => b != '"' as u8 && b != '\n' as u8 && b < 0x80,
            ByteClass::LineBody => b != '\n' as u8 && b != '\r' as u8,
            ByteClass::PathChar => alpha || digit || mark || b == '/' as u8 || b == '.' as u8,
        }
    }
}

/// Whether the byte at `pos` exists and equals `b`.
pub open spec fn byte_is(s: Seq<u8>, pos: int, b: u8) -> bool {
    0 <= pos < s.len() && s[pos] == b
}

/// The first position at or after `pos` whose byte is not in `class`, or the
/// end of the text.
pub open spec fn scan(s: Seq<u8>, pos: int, class: ByteClass) -> int
    decreases s.len() - pos,
{
    if 0 <= pos < s.len() && class.has(s[pos]) {
        scan(s, pos + 1, class)
    } else {
        pos
    }
}

/// The position after the bytes of `class` that begin at `pos`. It never
/// lies before `pos`, nor past the end of a text that holds `pos`.
pub open spec fn skip(s: Seq<u8>, pos: int, class: ByteClass) -> int {
    let end = scan(s, pos, class);
    if pos <= end <= s.len() {
        end
    } else {
        pos
    }
}

/// The position after the white space within the line at `pos`.
pub open spec fn skip_inline(s: Seq<u8>, pos: int) -> int {
    skip(s, pos, ByteClass::Inline)
}

/// The position after the white space, line breaks included, at `pos`.
pub open spec fn skip_blank(s: Seq<u8>, pos: int) -> int {
    skip(s, pos, ByteClass::Blank)
}

/// A scan stays inside the text, passes only bytes of its class, and stops at
/// the first byte outside it.
pub proof fn lemma_scan(s: Seq<u8>, pos: int, class: ByteClass)
    requires
        0 <= pos <= s.len(),
    ensures
        pos <= scan(s, pos, class) <= s.len(),
        forall|k: int| pos <= k < scan(s, pos, class) ==> class.has(#[trigger] s[k]),
        scan(s, pos, class) < s.len() ==> !class.has(s[scan(s, pos, class)]),
    decreases s.len() - pos,
{
    if pos < s.len() && class.has(s[pos]) {
        lemma_scan(s, pos + 1, class);
    }
}

/// The end of a scan is fixed by what it passes and where it stops.
pub proof fn lemma_scan_end(s: Seq<u8>, pos: int, end: int, class: ByteClass)
    requires
        0 <= pos <= end <= s.len(),
        forall|k: int| pos <= k < end ==> class.has(#[trigger] s[k]),
        end < s.len() ==> !class.has(s[end]),
    ensures
        scan(s, pos, class) == end,
    decreases end - pos,
{
    if pos < end {
        lemma_scan_end(s, pos + 1, end, class);
    }
}

/// A position at which the text may be cut: its end, or any byte that does
/// not continue a multi-byte character.
pub open spec fn is_edge(s: Seq<u8>, i: int) -> bool {
    0 <= i <= s.len() && (i < s.len() ==> !is_continuation_byte(s[i]))
}

/// An edge of well-formed UTF-8 is a character boundary.
pub proof fn lemma_edge_is_boundary(s: Seq<u8>, i: int)
    requires
        valid_utf8(s),
        is_edge(s, i),
    ensures
        is_char_boundary(s, i),
{
    if i < s.len() {
        is_char_boundary_iff_not_is_continuation_byte(s, i);
    } else {
        is_char_boundary_start_end_of_seq(s);
    }
}

/// In well-formed UTF-8 the position after an ASCII byte is an edge.
pub proof fn lemma_edge_after_ascii(s: Seq<u8>, i: int)
    requires
        valid_utf8(s),
        0 < i <= s.len(),
        s[i - 1] < 0x80,
    ensures
        is_edge(s, i),
{
    if i < s.len() {
        assert(is_edge(s, i - 1));
        lemma_edge_is_boundary(s, i - 1);
        valid_utf8_split(s, i - 1);
        let tail = s.subrange(i - 1, s.len() as int);
        assert(tail[0] == s[i - 1]);
        assert(valid_first_scalar(tail));
        assert(length_of_first_scalar(tail) == 1);
        let rest = pop_first_scalar(tail);
        assert(valid_utf8(rest));
        assert(rest.len() > 0);
        assert(rest[0] == s[i]);
        assert(valid_first_scalar(rest));
    }
}

/// The bytes of a source text are well-formed UTF-8.
pub proof fn lemma_source_is_utf8(src: &str)
    ensures
        valid_utf8(src.spec_bytes()),
{
    encode_utf8_valid_utf8(src@);
}

/// Whether the source holds the byte `b` at `pos`.
pub fn at(src: &str, pos: usize, b: u8) -> (r: bool)
    ensures
        r == byte_is(src.spec_bytes(), pos as int, b),
        src.spec_bytes().len() <= usize::MAX,
        r && b < 0x80 ==> is_edge(src.spec_bytes(), pos as int) && is_edge(
            src.spec_bytes(),
            pos + 1,
        ),
{
    let bytes = src.as_bytes();
    let r = pos < bytes.len() && bytes[pos] == b;
    proof {
        if r && b < 0x80 {
            lemma_source_is_utf8(src);
            lemma_edge_after_ascii(src.spec_bytes(), pos + 1);
        }
    }
    r
}

/// Scans forward from `pos` over the bytes of `class`.
pub fn scan_class(src: &str, pos: usize, class: ByteClass) -> (end: usize)
    requires
        pos <= src.spec_bytes().len(),
    ensures
        end == scan(src.spec_bytes(), pos as int, class),
        end == skip(src.spec_bytes(), pos as int, class),
        pos <= end <= src.spec_bytes().len() <= usize::MAX,
        is_edge(src.spec_bytes(), pos as int) || class is StringBody || class is LineBody
            ==> is_edge(src.spec_bytes(), end as int),
{
    let bytes = src.as_bytes();
    let mut end: usize = pos;
    while end < bytes.len() && class.contains(bytes[end])
        invariant
            bytes@ == src.spec_bytes(),
            pos <= end <= bytes@.len(),
            forall|k: int| pos <= k < end ==> class.has(#[trigger] bytes@[k]),
        decreases bytes@.len() - end,
    {
        end += 1;
    }
    proof {
        lemma_scan_end(bytes@, pos as int, end as int, class);
        lemma_source_is_utf8(src);
        if pos < end {
            assert(class.has(bytes@[end - 1]));
            if bytes@[end - 1] < 0x80 {
                lemma_edge_after_ascii(bytes@, end as int);
            }
        }
    }
    end
}

/// A position next to an ASCII byte, or at either end of the text. The
/// lexical rules cut the text at such positions only.
pub open spec fn is_cut(s: Seq<u8>, i: int) -> bool {
    0 <= i <= s.len() && (i == 0 || i == s.len() || s[i] < 0x80 || s[i - 1] < 0x80)
}

/// In well-formed UTF-8 a cut is an edge.
pub proof fn lemma_cut_is_edge(s: Seq<u8>, i: int)
    requires
        valid_utf8(s),
        is_cut(s, i),
    ensures
        is_edge(s, i),
{
    if i == 0 {
        if s.len() > 0 {
            is_char_boundary_iff_not_is_continuation_byte(s, 0);
        }
    } else if i < s.len() && s[i] >= 0x80 {
        lemma_edge_after_ascii(s, i);
    }
}

/// Borrows the part of the source between two cuts.
pub fn slice<'a>(src: &'a str, from: usize, to: usize) -> (r: &'a str)
    requires
        from <= to,
        is_cut(src.spec_bytes(), from as int),
        is_cut(src.spec_bytes(), to as int),
    ensures
        r.spec_bytes() == src.spec_bytes().subrange(from as int, to as int),
{
    proof {
        lemma_source_is_utf8(src);
        lemma_cut_is_edge(src.spec_bytes(), from as int);
        lemma_cut_is_edge(src.spec_bytes(), to as int);
        lemma_edge_is_boundary(src.spec_bytes(), to as int);
    }
    let (head, _) = src.split_at(to);
    proof {
        lemma_source_is_utf8(head);
        assert(is_edge(head.spec_bytes(), from as int));
        lemma_edge_is_boundary(head.spec_bytes(), from as int);
    }
    let (_, r) = head.split_at(from);
    assert(r.spec_bytes() =~= src.spec_bytes().subrange(from as int, to as int));
    r
}

/// Whether two byte slices hold the same bytes.
pub fn bytes_eq(a: &[u8], b: &[u8]) -> (r: bool)
    ensures
        r == (a@ == b@),
{
    if a.len() != b.len() {
        return false;
    }
    let mut i: usize = 0;
    while i < a.len()
        invariant
            a@.len() == b@.len(),
            i <= a@.len(),
            forall|k: int| 0 <= k < i ==> a@[k] == b@[k],
        decreases a@.len() - i,
    {
        if a[i] != b[i] {
            return false;
        }
        i += 1;
    }
    assert(a@ =~= b@);
    true
}

} // verus!
