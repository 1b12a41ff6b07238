//! The closed sets of keywords and operators, and the words of the language.

use crate::text::{
    bytes_eq, byte_is, is_alpha, is_cut, is_edge, lemma_cut_is_edge, lemma_scan, scan_class, skip,
    skip_inline, ByteClass,
};
use crate::hir::Text;
use vstd::prelude::*;
use vstd::string::StringSliceAdditionalSpecFns;

verus! {

/// The keywords of the language.
#[derive(Debug, PartialEq, Eq, Copy, Clone, Structural)]
pub enum Keyword {
    /// `use`
    Use,
    /// `fn`
    Fn,
    /// `return`
    Return,
    /// `and`
    And,
    /// `or`
    Or,
    /// `xor`
    Xor,
    /// `not`
    Not,
    /// `if`
    If,
    /// `else`
    Else,
    /// `else if`
    ElseIf,
    /// `unless`
    Unless,
    /// `else unless`
    ElseUnless,
    /// `loop`
    Loop,
    /// `while`
    While,
    /// `until`
    Until,
    /// `for`
    For,
    /// `in`
    In,
}

impl Keyword {
    /// The bytes of the keyword as written.
    pub open spec fn spelled(self) -> Text {
        match self {
            Keyword::Use => "use".spec_bytes(),
            Keyword::Fn => "fn".spec_bytes(),
            Keyword::Return => "return".spec_bytes(),
            Keyword::And => "and".spec_bytes(),
            Keyword::Or => "or".spec_bytes(),
            Keyword::Xor => "xor".spec_bytes(),
            Keyword::Not => "not".spec_bytes(),
            Keyword::If => "if".spec_bytes(),
            Keyword::Else => "else".spec_bytes(),
            Keyword::ElseIf => "else if".spec_bytes(),
            Keyword::Unless => "unless".spec_bytes(),
            Keyword::ElseUnless => "else unless".spec_bytes(),
            Keyword::Loop => "loop".spec_bytes(),
            Keyword::While => "while".spec_bytes(),
            Keyword::Until => "until".spec_bytes(),
            Keyword::For => "for".spec_bytes(),
            Keyword::In => "in".spec_bytes(),
        }
    }

    /// The keyword as written. The two-word keywords are written with one
    /// space between their words.
    pub fn spelling(&self) -> (r: &'static str)
        ensures
            r.spec_bytes() == self.spelled(),
    {
        match self {
            Keyword::Use => "use",
            Keyword::Fn => "fn",
            Keyword::Return => "return",
            Keyword::And => "and",
            Keyword::Or => "or",
            Keyword::Xor => "xor",
            Keyword::Not => "not",
            Keyword::If => "if",
            Keyword::Else => "else",
            Keyword::ElseIf => "else if",
            Keyword::Unless => "unless",
            Keyword::ElseUnless => "else unless",
            Keyword::Loop => "loop",
            Keyword::While => "while",
            Keyword::Until => "until",
            Keyword::For => "for",
            Keyword::In => "in",
        }
    }

    /// The keyword that a single word spells, if any.
    pub open spec fn of_word(word: Text) -> Option<Keyword> {
        if word == Keyword::Use.spelled() {
            Some(Keyword::Use)
        } else if word == Keyword::Fn.spelled() {
            Some(Keyword::Fn)
        } else if word == Keyword::Return.spelled() {
            Some(Keyword::Return)
        } else if word == Keyword::And.spelled() {
            Some(Keyword::And)
        } else if word == Keyword::Or.spelled() {
            Some(Keyword::Or)
        } else if word == Keyword::Xor.spelled() {
            Some(Keyword::Xor)
        } else if word == Keyword::Not.spelled() {
            Some(Keyword::Not)
        } else if word == Keyword::If.spelled() {
            Some(Keyword::If)
        } else if word == Keyword::Else.spelled() {
            Some(Keyword::Else)
        } else if word == Keyword::Unless.spelled() {
            Some(Keyword::Unless)
        } else if word == Keyword::Loop.spelled() {
            Some(Keyword::Loop)
        } else if word == Keyword::While.spelled() {
            Some(Keyword::While)
        } else if word == Keyword::Until.spelled() {
            Some(Keyword::Until)
        } else if word == Keyword::For.spelled() {
            Some(Keyword::For)
        } else if word == Keyword::In.spelled() {
            Some(Keyword::In)
        } else {
            None
        }
    }

    /// Classifies a single word as a keyword.
    pub fn from_word(word: &[u8]) -> (r: Option<Keyword>)
        ensures
            r == Keyword::of_word(word@),
    {
        if bytes_eq(word, Keyword::Use.spelling().as_bytes()) {
            Some(Keyword::Use)
        } else if bytes_eq(word, Keyword::Fn.spelling().as_bytes()) {
            Some(Keyword::Fn)
        } else if bytes_eq(word, Keyword::Return.spelling().as_bytes()) {
            Some(Keyword::Return)
        } else if bytes_eq(word, Keyword::And.spelling().as_bytes()) {
            Some(Keyword::And)
        } else if bytes_eq(word, Keyword::Or.spelling().as_bytes()) {
            Some(Keyword::Or)
        } else if bytes_eq(word, Keyword::Xor.spelling().as_bytes()) {
            Some(Keyword::Xor)
        } else if bytes_eq(word, Keyword::Not.spelling().as_bytes()) {
            Some(Keyword::Not)
        } else if bytes_eq(word, Keyword::If.spelling().as_bytes()) {
            Some(Keyword::If)
        } else if bytes_eq(word, Keyword::Else.spelling().as_bytes()) {
            Some(Keyword::Else)
        } else if bytes_eq(word, Keyword::Unless.spelling().as_bytes()) {
            Some(Keyword::Unless)
        } else if bytes_eq(word, Keyword::Loop.spelling().as_bytes()) {
            Some(Keyword::Loop)
        } else if bytes_eq(word, Keyword::While.spelling().as_bytes()) {
            Some(Keyword::While)
        } else if bytes_eq(word, Keyword::Until.spelling().as_bytes()) {
            Some(Keyword::Until)
        } else if bytes_eq(word, Keyword::For.spelling().as_bytes()) {
            Some(Keyword::For)
        } else if bytes_eq(word, Keyword::In.spelling().as_bytes()) {
            Some(Keyword::In)
        } else {
            None
        }
    }
}

/// The operators of the language.
#[derive(Debug, PartialEq, Eq, Copy, Clone, Structural)]
pub enum Operator {
    /// `=`
    Assign,
    /// `+`
    Add,
    /// `-`
    Sub,
    /// `*`
    Mul,
    /// `/`
    Div,
    /// `%`
    Rem,
    /// `^` (e.g. x ^ 2 == x * x)
    Exp,
    /// `+=`
    AddAssign,
    /// `-=`
    SubAssign,
    /// `*=`
    MulAssign,
    /// `/=`
    DivAssign,
    /// `%=`
    RemAssign,
    /// `^=`
    ExpAssign,
    /// `==` (equality of value)
    Eq,
    /// `@` (get identity)
    Id,
    /// `>`
    Greater,
    /// `<`
    Less,
    /// `>=`
    GreaterEq,
    /// `<=`
    LessEq,
    /// `!=`
    NotEq,
}

impl Operator {
    /// The operator written with the byte `first`, followed by `=` or not.
    pub open spec fn of_bytes(first: u8, with_eq: bool) -> Option<Operator> {
        if first == '=' as u8 {
            Some(if with_eq { Operator::Eq } else { Operator::Assign })
        } else if first == '+' as u8 {
            Some(if with_eq { Operator::AddAssign } else { Operator::Add })
        } else if first == '-' as u8 {
            Some(if with_eq { Operator::SubAssign } else { Operator::Sub })
        } else if first == '*' as u8 {
            Some(if with_eq { Operator::MulAssign } else { Operator::Mul })
        } else if first == '/' as u8 {
            Some(if with_eq { Operator::DivAssign } else { Operator::Div })
        } else if first == '%' as u8 {
            Some(if with_eq { Operator::RemAssign } else { Operator::Rem })
        } else if first == '^' as u8 {
            Some(if with_eq { Operator::ExpAssign } else { Operator::Exp })
        } else if first == '>' as u8 {
            Some(if with_eq { Operator::GreaterEq } else { Operator::Greater })
        } else if first == '<' as u8 {
            Some(if with_eq { Operator::LessEq } else { Operator::Less })
        } else if first == '!' as u8 && with_eq {
            Some(Operator::NotEq)
        } else if first == '@' as u8 && !with_eq {
            Some(Operator::Id)
        } else {
            None
        }
    }

    /// The longest operator that stands at `pos`, with the position after it.
    pub open spec fn at(s: Text, pos: int) -> Option<(Operator, int)> {
        if 0 <= pos < s.len() {
            let with_eq = byte_is(s, pos + 1, '=' as u8) && s[pos] != '@' as u8;
            match Operator::of_bytes(s[pos], with_eq) {
                Some(op) => Some((op, if with_eq { pos + 2 } else { pos + 1 })),
                None => None,
            }
        } else {
            None
        }
    }

    /// Recognizes the longest operator that stands at `pos`.
    pub fn lex(src: &str, pos: usize) -> (r: Option<(Operator, usize)>)
        ensures
            match r {
                Some((op, next)) => Operator::at(src.spec_bytes(), pos as int) == Some(
                    (op, next as int),
                ) && pos < next <= src.spec_bytes().len() && is_cut(src.spec_bytes(), pos as int)
                    && is_cut(src.spec_bytes(), next as int) && is_edge(
                    src.spec_bytes(),
                    next as int,
                ),
                None => Operator::at(src.spec_bytes(), pos as int) is None,
            },
    {
        let bytes = src.as_bytes();
        if pos >= bytes.len() {
            return None;
        }
        let first = bytes[pos];
        let with_eq = pos + 1 < bytes.len() && bytes[pos + 1] == '=' as u8 && first != '@' as u8;
        let next = if with_eq { pos + 2 } else { pos + 1 };
        let op = if first == '=' as u8 {
            if with_eq { Operator::Eq } else { Operator::Assign }
        } else if first == '+' as u8 {
            if with_eq { Operator::AddAssign } else { Operator::Add }
        } else if first == '-' as u8 {
            if with_eq { Operator::SubAssign } else { Operator::Sub }
        } else if first == '*' as u8 {
            if with_eq { Operator::MulAssign } else { Operator::Mul }
        } else if first == '/' as u8 {
            if with_eq { Operator::DivAssign } else { Operator::Div }
        } else if first == '%' as u8 {
            if with_eq { Operator::RemAssign } else { Operator::Rem }
        } else if first == '^' as u8 {
            if with_eq { Operator::ExpAssign } else { Operator::Exp }
        } else if first == '>' as u8 {
            if with_eq { Operator::GreaterEq } else { Operator::Greater }
        } else if first == '<' as u8 {
            if with_eq { Operator::LessEq } else { Operator::Less }
        } else if first == '!' as u8 && with_eq {
            Operator::NotEq
        } else if first == '@' as u8 && !with_eq {
            Operator::Id
        } else {
            return None;
        };
        proof {
            crate::text::lemma_source_is_utf8(src);
            lemma_cut_is_edge(src.spec_bytes(), next as int);
        }
        Some((op, next))
    }

    /// The operator as written.
    pub fn spelling(&self) -> (r: &'static str)
        ensures
            r@ == match *self {
                Operator::Assign => "="@,
                Operator::Add => "+"@,
                Operator::Sub => "-"@,
                Operator::Mul => "*"@,
                Operator::Div => "/"@,
                Operator::Rem => "%"@,
                Operator::Exp => "^"@,
                Operator::AddAssign => "+="@,
                Operator::SubAssign => "-="@,
                Operator::MulAssign => "*="@,
                Operator::DivAssign => "/="@,
                Operator::RemAssign => "%="@,
                Operator::ExpAssign => "^="@,
                Operator::Eq => "=="@,
                Operator::Id => "@"@,
                Operator::Greater => ">"@,
                Operator::Less => "<"@,
                Operator::GreaterEq => ">="@,
                Operator::LessEq => "<="@,
                Operator::NotEq => "!="@,
            },
    {
        match self {
            Operator::Assign => "=",
            Operator::Add => "+",
            Operator::Sub => "-",
            Operator::Mul => "*",
            Operator::Div => "/",
            Operator::Rem => "%",
            Operator::Exp => "^",
            Operator::AddAssign => "+=",
            Operator::SubAssign => "-=",
            Operator::MulAssign => "*=",
            Operator::DivAssign => "/=",
            Operator::RemAssign => "%=",
            Operator::ExpAssign => "^=",
            Operator::Eq => "==",
            Operator::Id => "@",
            Operator::Greater => ">",
            Operator::Less => "<",
            Operator::GreaterEq => ">=",
            Operator::LessEq => "<=",
            Operator::NotEq => "!=",
        }
    }

    /// How tightly a binary operator binds, from 2 for the comparisons up
    /// to 5 for `^`; `None` for an operator that is not binary.
    pub open spec fn binds(self) -> Option<nat> {
        match self {
            Operator::Eq | Operator::NotEq | Operator::Greater | Operator::Less
            | Operator::GreaterEq | Operator::LessEq => Some(2),
            Operator::Add | Operator::Sub => Some(3),
            Operator::Mul | Operator::Div | Operator::Rem => Some(4),
            Operator::Exp => Some(5),
            _ => None,
        }
    }

    /// How tightly a binary operator binds.
    pub fn level(&self) -> (r: Option<u8>)
        ensures
            match r {
                Some(level) => self.binds() == Some(level as nat),
                None => self.binds() is None,
            },
    {
        match self {
            Operator::Eq | Operator::NotEq | Operator::Greater | Operator::Less
            | Operator::GreaterEq | Operator::LessEq => Some(2),
            Operator::Add | Operator::Sub => Some(3),
            Operator::Mul | Operator::Div | Operator::Rem => Some(4),
            Operator::Exp => Some(5),
            _ => None,
        }
    }

    /// Whether the operator assigns the result of an operation to its left
    /// side (`+=` and the like).
    pub open spec fn assigns(self) -> bool {
        self == Operator::AddAssign || self == Operator::SubAssign || self == Operator::MulAssign
            || self == Operator::DivAssign || self == Operator::RemAssign || self
            == Operator::ExpAssign
    }

    /// Whether the operator assigns the result of an operation to its left
    /// side (`+=` and the like).
    pub fn is_compound(&self) -> (r: bool)
        ensures
            r == self.assigns(),
    {
        match self {
            Operator::AddAssign | Operator::SubAssign | Operator::MulAssign
            | Operator::DivAssign | Operator::RemAssign | Operator::ExpAssign => true,
            _ => false,
        }
    }
}

/// The end of the word that begins at `pos`: a letter followed by the
/// characters an identifier may hold. Equal to `pos` where no word begins.
pub open spec fn word_end(s: Text, pos: int) -> int {
    if 0 <= pos < s.len() && is_alpha(s[pos]) {
        skip(s, pos + 1, ByteClass::IdentTail)
    } else {
        pos
    }
}

/// The word that begins at `pos`; empty where none begins.
pub open spec fn word_at(s: Text, pos: int) -> Text {
    s.subrange(pos, word_end(s, pos))
}

/// Whether the word that begins at `pos` is exactly `word`.
pub open spec fn word_is(s: Text, pos: int, word: Text) -> bool {
    word_end(s, pos) > pos && word_at(s, pos) == word
}

/// The keyword that the word beginning at `pos` spells, if any.
pub open spec fn keyword_at(s: Text, pos: int) -> Option<Keyword> {
    if word_end(s, pos) > pos {
        Keyword::of_word(word_at(s, pos))
    } else {
        None
    }
}

/// Where the keyword that begins at `pos` ends, and which it is. `else`
/// followed on its line by `if` or `unless` is one keyword of two words,
/// however much white space stands between them.
pub open spec fn keyword_rule(s: Text, pos: int) -> Option<(Keyword, int)> {
    let end = word_end(s, pos);
    let second = skip_inline(s, end);
    match keyword_at(s, pos) {
        Some(Keyword::Else) => if keyword_at(s, second) == Some(Keyword::If) {
            Some((Keyword::ElseIf, word_end(s, second)))
        } else if keyword_at(s, second) == Some(Keyword::Unless) {
            Some((Keyword::ElseUnless, word_end(s, second)))
        } else {
            Some((Keyword::Else, end))
        },
        Some(keyword) => Some((keyword, end)),
        None => None,
    }
}

/// Whether a word is set aside by the language and cannot name anything.
pub open spec fn is_reserved(word: Text) -> bool {
    Keyword::of_word(word) is Some || word == "true".spec_bytes() || word == "false".spec_bytes()
        || word == "break".spec_bytes() || word == "continue".spec_bytes() || word
        == "type".spec_bytes()
}

/// A word ends inside the text.
pub proof fn lemma_word_end(s: Text, pos: int)
    requires
        0 <= pos <= s.len(),
    ensures
        pos <= word_end(s, pos) <= s.len(),
        forall|k: int| pos <= k < word_end(s, pos) ==> #[trigger] s[k] < 0x80,
        pos < word_end(s, pos) ==> is_cut(s, pos) && is_cut(s, word_end(s, pos)),
        pos < word_end(s, pos) && vstd::utf8::valid_utf8(s) ==> is_edge(s, pos) && is_edge(
            s,
            word_end(s, pos),
        ),
{
    if pos < s.len() && is_alpha(s[pos]) {
        lemma_scan(s, pos + 1, ByteClass::IdentTail);
        assert forall|k: int| pos <= k < word_end(s, pos) implies #[trigger] s[k] < 0x80 by {
            if k > pos {
                assert(ByteClass::IdentTail.has(s[k]));
            }
        }
        if vstd::utf8::valid_utf8(s) {
            lemma_cut_is_edge(s, pos);
            lemma_cut_is_edge(s, word_end(s, pos));
        }
    }
}

/// Finds the end of the word that begins at `pos`.
pub fn scan_word(src: &str, pos: usize) -> (end: usize)
    requires
        pos <= src.spec_bytes().len(),
    ensures
        end == word_end(src.spec_bytes(), pos as int),
        pos <= end <= src.spec_bytes().len() <= usize::MAX,
        is_edge(src.spec_bytes(), pos as int) ==> is_edge(src.spec_bytes(), end as int),
{
    let bytes = src.as_bytes();
    if pos < bytes.len() {
        let b = bytes[pos];
        if ('a' as u8 <= b && b <= 'z' as u8) || ('A' as u8 <= b && b <= 'Z' as u8) {
            proof {
                crate::text::lemma_source_is_utf8(src);
                crate::text::lemma_edge_after_ascii(src.spec_bytes(), pos + 1);
            }
            return scan_class(src, pos + 1, ByteClass::IdentTail);
        }
    }
    pos
}

/// The bytes of the source from `from` to `to`.
pub fn bytes_between<'a>(src: &'a str, from: usize, to: usize) -> (r: &'a [u8])
    requires
        from <= to <= src.spec_bytes().len(),
    ensures
        r@ == src.spec_bytes().subrange(from as int, to as int),
{
    vstd::slice::slice_subrange(src.as_bytes(), from, to)
}

/// Classifies the word that begins at `pos` and ends at `end`.
pub fn lex_keyword(src: &str, pos: usize, end: usize) -> (r: Option<Keyword>)
    requires
        pos <= src.spec_bytes().len(),
        end == word_end(src.spec_bytes(), pos as int),
    ensures
        r == keyword_at(src.spec_bytes(), pos as int),
{
    proof {
        lemma_word_end(src.spec_bytes(), pos as int);
    }
    if end > pos {
        Keyword::from_word(bytes_between(src, pos, end))
    } else {
        None
    }
}

/// Recognizes the keyword that begins at `pos`.
pub fn parse_keyword(src: &str, pos: usize) -> (r: Option<(Keyword, usize)>)
    requires
        pos <= src.spec_bytes().len(),
    ensures
        match r {
            Some((keyword, end)) => keyword_rule(src.spec_bytes(), pos as int) == Some(
                (keyword, end as int),
            ) && pos < end <= src.spec_bytes().len() && is_cut(
                src.spec_bytes(),
                pos as int,
            ) && is_cut(src.spec_bytes(), end as int) && is_edge(
                src.spec_bytes(),
                end as int,
            ),
            None => keyword_rule(src.spec_bytes(), pos as int) is None,
        },
{
    let end = scan_word(src, pos);
    proof {
        crate::text::lemma_source_is_utf8(src);
        lemma_word_end(src.spec_bytes(), pos as int);
    }
    match lex_keyword(src, pos, end) {
        Some(Keyword::Else) => {
            let second = scan_class(src, end, ByteClass::Inline);
            let second_end = scan_word(src, second);
            proof {
                lemma_word_end(src.spec_bytes(), second as int);
            }
            match lex_keyword(src, second, second_end) {
                Some(Keyword::If) => Some((Keyword::ElseIf, second_end)),
                Some(Keyword::Unless) => Some((Keyword::ElseUnless, second_end)),
                _ => Some((Keyword::Else, end)),
            }
        },
        Some(keyword) => Some((keyword, end)),
        None => None,
    }
}

/// Whether the word that begins at `pos` and ends at `end` is `word`.
pub fn word_eq(src: &str, pos: usize, end: usize, word: &str) -> (r: bool)
    requires
        pos <= src.spec_bytes().len(),
        end == word_end(src.spec_bytes(), pos as int),
    ensures
        r == word_is(src.spec_bytes(), pos as int, word.spec_bytes()),
{
    proof {
        lemma_word_end(src.spec_bytes(), pos as int);
    }
    end > pos && bytes_eq(bytes_between(src, pos, end), word.as_bytes())
}

/// Whether a word is set aside by the language.
pub fn reserved(word: &[u8]) -> (r: bool)
    ensures
        r == is_reserved(word@),
{
    Keyword::from_word(word).is_some() || bytes_eq(word, "true".as_bytes()) || bytes_eq(
        word,
        "false".as_bytes(),
    ) || bytes_eq(word, "break".as_bytes()) || bytes_eq(word, "continue".as_bytes()) || bytes_eq(
        word,
        "type".as_bytes(),
    )
}

} // verus!
