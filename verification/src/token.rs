//! The lexical classifier as one rule: the next atomic token at a position,
//! with its tag, its decoded value where it has one, and the text it was
//! read from.

use crate::error::{fail, fault, in_text, outcome, Expected, Failure, Parsed};
use crate::grammar::starts_number;
use crate::hir::{Bool, Comment, Literal, Text};
use crate::lexical::{
    bstr_rule, char_rule, comment_rule, has_marker, ident_rule, number_rule, parse_bstr,
    parse_char, parse_comment, parse_ident, parse_number, parse_symbol, parse_ustr, symbol_rule,
    ustr_rule,
};
use crate::text::{at, byte_is, lemma_source_is_utf8, slice};
use crate::view::{CommentView, LiteralView};
use crate::words::{
    keyword_rule, lemma_word_end, parse_keyword, scan_word, word_at, word_end, word_eq, word_is,
    Keyword, Operator,
};
use vstd::prelude::*;
use vstd::string::StringSliceAdditionalSpecFns;

verus! {

/// An atomic token.
#[derive(Debug)]
pub enum Token<'prgrm> {
    /// A comment of one line or of several.
    Comment(Comment<'prgrm>),
    /// A keyword, with the text it was written as.
    Keyword(Keyword, &'prgrm str),
    /// An operator, with the text it was written as.
    Operator(Operator, &'prgrm str),
    /// An identifier, a boolean, a number, a string, a byte string, a
    /// character or a symbol.
    Literal(Literal<'prgrm>),
}

/// View of a [`Token`].
pub enum TokenView {
    Comment(CommentView),
    Keyword(Keyword, Text),
    Operator(Operator, Text),
    Literal(LiteralView),
}

impl<'a> View for Token<'a> {
    type V = TokenView;

    open spec fn view(&self) -> TokenView {
        match self {
            Token::Comment(comment) => TokenView::Comment(comment@),
            Token::Keyword(keyword, text) => TokenView::Keyword(*keyword, text.spec_bytes()),
            Token::Operator(operator, text) => TokenView::Operator(*operator, text.spec_bytes()),
            Token::Literal(literal) => TokenView::Literal(literal@),
        }
    }
}

/// The next atomic token: a comment, a literal that is no list, a keyword,
/// an identifier, or an operator. Punctuation is no token.
pub open spec fn token_rule(s: Text, pos: int) -> Parsed<TokenView> {
    if has_marker(s, pos) {
        match comment_rule(s, pos) {
            Ok((comment, next)) => Ok((TokenView::Comment(comment), next)),
            Err(f) => Err(f),
        }
    } else if byte_is(s, pos, '"' as u8) {
        match ustr_rule(s, pos) {
            Ok((text, next)) => Ok((TokenView::Literal(LiteralView::UStr(text)), next)),
            Err(f) => Err(f),
        }
    } else if byte_is(s, pos, 'b' as u8) && byte_is(s, pos + 1, '"' as u8) {
        match bstr_rule(s, pos) {
            Ok(((bytes, text), next)) => Ok(
                (TokenView::Literal(LiteralView::BStr(bytes, text)), next),
            ),
            Err(f) => Err(f),
        }
    } else if byte_is(s, pos, '\'' as u8) {
        match char_rule(s, pos) {
            Ok(((value, text), next)) => Ok(
                (TokenView::Literal(LiteralView::Char(value, text)), next),
            ),
            Err(f) => Err(f),
        }
    } else if byte_is(s, pos, ':' as u8) {
        match symbol_rule(s, pos) {
            Ok((text, next)) => Ok((TokenView::Literal(LiteralView::Symbol(text)), next)),
            Err(f) => Err(f),
        }
    } else if starts_number(s, pos) {
        match number_rule(s, pos) {
            Ok((number, next)) => Ok((TokenView::Literal(number), next)),
            Err(f) => Err(f),
        }
    } else if word_end(s, pos) > pos {
        match keyword_rule(s, pos) {
            Some((keyword, end)) => Ok((TokenView::Keyword(keyword, s.subrange(pos, end)), end)),
            None => if word_is(s, pos, "true".spec_bytes()) {
                Ok(
                    (
                        TokenView::Literal(LiteralView::Bool(true, word_at(s, pos))),
                        word_end(s, pos),
                    ),
                )
            } else if word_is(s, pos, "false".spec_bytes()) {
                Ok(
                    (
                        TokenView::Literal(LiteralView::Bool(false, word_at(s, pos))),
                        word_end(s, pos),
                    ),
                )
            } else {
                match ident_rule(s, pos) {
                    Ok((name, next)) => Ok((TokenView::Literal(LiteralView::Ident(name)), next)),
                    Err(f) => Err(f),
                }
            },
        }
    } else {
        match Operator::at(s, pos) {
            Some((operator, end)) => Ok(
                (TokenView::Operator(operator, s.subrange(pos, end)), end),
            ),
            None => fault(pos, Expected::Token),
        }
    }
}

/// Recognizes the next atomic token at `pos`. Where there is none, nothing
/// is consumed, and the failure says what was missed.
pub fn next_token<'a>(src: &'a str, pos: usize) -> (r: Result<(Token<'a>, usize), Failure>)
    requires
        pos <= src.spec_bytes().len(),
    ensures
        outcome(r) == token_rule(src.spec_bytes(), pos as int),
        in_text(r, pos, src.spec_bytes()),
{
    if at(src, pos, '/' as u8) && at(src, pos + 1, '/' as u8) {
        return match parse_comment(src, pos) {
            Ok((comment, next)) => Ok((Token::Comment(comment), next)),
            Err(failure) => Err(failure),
        };
    }
    if at(src, pos, '"' as u8) {
        return match parse_ustr(src, pos) {
            Ok((text, next)) => Ok((Token::Literal(Literal::UStr(text)), next)),
            Err(failure) => Err(failure),
        };
    }
    if at(src, pos, 'b' as u8) && at(src, pos + 1, '"' as u8) {
        return match parse_bstr(src, pos) {
            Ok((text, next)) => Ok((Token::Literal(Literal::BStr(text)), next)),
            Err(failure) => Err(failure),
        };
    }
    if at(src, pos, '\'' as u8) {
        return match parse_char(src, pos) {
            Ok((value, next)) => Ok((Token::Literal(Literal::Char(value)), next)),
            Err(failure) => Err(failure),
        };
    }
    if at(src, pos, ':' as u8) {
        return match parse_symbol(src, pos) {
            Ok((symbol, next)) => Ok((Token::Literal(Literal::Symbol(symbol)), next)),
            Err(failure) => Err(failure),
        };
    }
    if crate::parser::number_starts(src, pos) {
        return match parse_number(src, pos) {
            Ok((number, next)) => Ok((Token::Literal(number), next)),
            Err(failure) => Err(failure),
        };
    }
    let end = scan_word(src, pos);
    proof {
        lemma_source_is_utf8(src);
        lemma_word_end(src.spec_bytes(), pos as int);
    }
    if end > pos {
        match parse_keyword(src, pos) {
            Some((keyword, last)) => Ok((Token::Keyword(keyword, slice(src, pos, last)), last)),
            None => {
                if word_eq(src, pos, end, "true") {
                    Ok((Token::Literal(Literal::Bool(Bool(true, slice(src, pos, end)))), end))
                } else if word_eq(src, pos, end, "false") {
                    Ok((Token::Literal(Literal::Bool(Bool(false, slice(src, pos, end)))), end))
                } else {
                    match parse_ident(src, pos) {
                        Ok((name, next)) => Ok((Token::Literal(Literal::Ident(name)), next)),
                        Err(failure) => Err(failure),
                    }
                }
            },
        }
    } else {
        match Operator::lex(src, pos) {
            Some((operator, last)) => Ok(
                (Token::Operator(operator, slice(src, pos, last)), last),
            ),
            None => fail(pos, Expected::Token),
        }
    }
}

} // verus!
