//! The parser of literals, expressions, statements and blocks: executable
//! code that computes what the rules of the grammar say.

use crate::error::{fail, in_text, outcome, outcome_by, Expected, Failure};
use crate::grammar::{
    args_rule, assign_rule, assigns_at, binary_op, binary_rule, block_rule, branch,
    branch_rule, break_rule, call, chain_rule, continue_rule, dots_rule, effect_rule,
    elements_rule, ends_statement, entries_rule, expr_rule, for_rule, guarded_rule, items_rule,
    literal_rule, named_rule, power_rule, prefix_op, primary_rule, return_rule, starts_number,
    stmt_rule, typed_rule, unary_rule,
};
use crate::hir::{
    Array, Block, Bool, Expr, FnCall, Ident, Literal, MapLit, Stmt, Symbol, Tuple, Ty, VarAssign,
};
use crate::lexical::{
    parse_bstr, parse_char, parse_comment, parse_ident, parse_number, parse_symbol, parse_ty,
    parse_ustr,
};
use crate::text::{
    at, byte_is, is_cut, is_edge, lemma_cut_is_edge, lemma_source_is_utf8, scan_class, slice, ByteClass,
};
use crate::view::{
    entries_view, exprs_view, lemma_call_view, lemma_entries_view, lemma_literals_view,
    lemma_stmts_view, literals_view, stmts_view, LiteralView, StmtView,
};
use crate::words::{
    lemma_word_end, lex_keyword, parse_keyword, scan_word, word_eq, Keyword, Operator,
};
use vstd::prelude::*;
use vstd::string::StringSliceAdditionalSpecFns;

verus! {

/// Builds the call of `name` on no argument.
fn call_none<'a>(name: Ident<'a>) -> (r: Expr<'a>)
    ensures
        r@ == call(name@, Seq::empty()),
{
    let args: Vec<Box<Expr<'a>>> = Vec::new();
    proof {
        lemma_call_view(name, args);
        assert(exprs_view(args@) =~= Seq::empty());
    }
    Expr::FnCall(FnCall { name, args })
}

/// Builds the call of `name` on one argument.
fn call_one<'a>(name: Ident<'a>, first: Expr<'a>) -> (r: Expr<'a>)
    ensures
        r@ == call(name@, seq![first@]),
{
    let mut args: Vec<Box<Expr<'a>>> = Vec::new();
    args.push(Box::new(first));
    proof {
        lemma_call_view(name, args);
        assert(exprs_view(args@) =~= seq![first@]);
    }
    Expr::FnCall(FnCall { name, args })
}

/// Builds the call of `name` on two arguments.
fn call_two<'a>(name: Ident<'a>, first: Expr<'a>, second: Expr<'a>) -> (r: Expr<'a>)
    ensures
        r@ == call(name@, seq![first@, second@]),
{
    let mut args: Vec<Box<Expr<'a>>> = Vec::new();
    args.push(Box::new(first));
    args.push(Box::new(second));
    proof {
        lemma_call_view(name, args);
        assert(exprs_view(args@) =~= seq![first@, second@]);
    }
    Expr::FnCall(FnCall { name, args })
}

/// Builds the boolean literal written as `text`.
fn truth<'a>(value: bool, text: &'a str) -> (r: Literal<'a>)
    ensures
        r@ == LiteralView::Bool(value, text.spec_bytes()),
{
    Literal::Bool(Bool(value, text))
}

/// Finds the end of the binary operator of `level` that stands at `pos`.
fn lex_binary_op(src: &str, pos: usize, level: u8) -> (r: Option<usize>)
    requires
        pos <= src.spec_bytes().len(),
    ensures
        match r {
            Some(end) => binary_op(src.spec_bytes(), pos as int, level as nat) == Some(end as int)
                && pos < end <= src.spec_bytes().len() && is_cut(src.spec_bytes(), pos as int)
                && is_cut(src.spec_bytes(), end as int) && is_edge(src.spec_bytes(), end as int),
            None => binary_op(src.spec_bytes(), pos as int, level as nat) is None,
        },
{
    let end = scan_word(src, pos);
    let keyword = lex_keyword(src, pos, end);
    proof {
        lemma_source_is_utf8(src);
        lemma_word_end(src.spec_bytes(), pos as int);
    }
    if at(src, pos, '/' as u8) && at(src, pos + 1, '/' as u8) {
        return None;
    }
    if level == 0 && keyword == Some(Keyword::Or) {
        return Some(end);
    }
    if level == 1 && (keyword == Some(Keyword::And) || keyword == Some(Keyword::Xor)) {
        return Some(end);
    }
    match Operator::lex(src, pos) {
        Some((op, next)) => {
            if op.level() == Some(level) {
                Some(next)
            } else {
                None
            }
        },
        None => None,
    }
}

/// Whether a number begins at `pos`.
pub fn number_starts(src: &str, pos: usize) -> (r: bool)
    ensures
        r == starts_number(src.spec_bytes(), pos as int),
        src.spec_bytes().len() <= usize::MAX,
{
    let bytes = src.as_bytes();
    if pos >= bytes.len() {
        return false;
    }
    let b = bytes[pos];
    if '0' as u8 <= b && b <= '9' as u8 {
        return true;
    }
    if (b == '-' as u8 || b == '+' as u8) && pos + 1 < bytes.len() {
        let d = bytes[pos + 1];
        return '0' as u8 <= d && d <= '9' as u8;
    }
    false
}

/// Finds the end of the prefix operator that stands at `pos`.
fn lex_prefix_op(src: &str, pos: usize) -> (r: Option<usize>)
    requires
        pos <= src.spec_bytes().len(),
    ensures
        match r {
            Some(end) => prefix_op(src.spec_bytes(), pos as int) == Some(end as int) && pos < end
                <= src.spec_bytes().len() && is_cut(src.spec_bytes(), pos as int) && is_cut(
                src.spec_bytes(),
                end as int,
            ) && is_edge(src.spec_bytes(), end as int),
            None => prefix_op(src.spec_bytes(), pos as int) is None,
        },
{
    let end = scan_word(src, pos);
    proof {
        lemma_source_is_utf8(src);
        lemma_word_end(src.spec_bytes(), pos as int);
    }
    if lex_keyword(src, pos, end) == Some(Keyword::Not) {
        Some(end)
    } else if at(src, pos, '@' as u8) || (at(src, pos, '-' as u8) && !number_starts(src, pos)) {
        Some(pos + 1)
    } else {
        None
    }
}

/// Whether a statement may end at `pos`.
fn statement_ends(src: &str, pos: usize) -> (r: bool)
    ensures
        r == ends_statement(src.spec_bytes(), pos as int),
{
    let bytes = src.as_bytes();
    if pos >= bytes.len() {
        return true;
    }
    let b = bytes[pos];
    b == '\n' as u8 || b == '}' as u8 || (b == '/' as u8 && pos + 1 < bytes.len() && bytes[pos
        + 1] == '/' as u8)
}

/// Recognizes a literal at `pos`.
pub fn parse_literal<'a>(src: &'a str, pos: usize) -> (r: Result<(Literal<'a>, usize), Failure>)
    requires
        pos <= src.spec_bytes().len(),
    ensures
        outcome(r) == literal_rule(src.spec_bytes(), pos as int),
        in_text(r, pos, src.spec_bytes()),
    decreases src.spec_bytes().len() - pos, 3int,
{
    if at(src, pos, '"' as u8) {
        match parse_ustr(src, pos) {
            Ok((text, next)) => Ok((Literal::UStr(text), next)),
            Err(failure) => Err(failure),
        }
    } else if at(src, pos, 'b' as u8) && at(src, pos + 1, '"' as u8) {
        match parse_bstr(src, pos) {
            Ok((text, next)) => Ok((Literal::BStr(text), next)),
            Err(failure) => Err(failure),
        }
    } else if at(src, pos, '\'' as u8) {
        match parse_char(src, pos) {
            Ok((value, next)) => Ok((Literal::Char(value), next)),
            Err(failure) => Err(failure),
        }
    } else if at(src, pos, ':' as u8) {
        match parse_symbol(src, pos) {
            Ok((symbol, next)) => Ok((Literal::Symbol(symbol), next)),
            Err(failure) => Err(failure),
        }
    } else if at(src, pos, '#' as u8) {
        if at(src, pos + 1, '[' as u8) {
            match parse_elements(src, pos + 2, ']' as u8) {
                Ok((items, next)) => Ok((Literal::Array(items), next)),
                Err(failure) => Err(failure),
            }
        } else if at(src, pos + 1, '(' as u8) {
            match parse_elements(src, pos + 2, ')' as u8) {
                Ok((items, next)) => {
                    proof {
                        lemma_literals_view(items.0);
                    }
                    Ok((Literal::Tuple(Tuple(items.0)), next))
                },
                Err(failure) => Err(failure),
            }
        } else if at(src, pos + 1, '{' as u8) {
            match parse_entries(src, pos + 2) {
                Ok((entries, next)) => Ok((Literal::MapLit(entries), next)),
                Err(failure) => Err(failure),
            }
        } else {
            fail(pos + 1, Expected::Literal)
        }
    } else if number_starts(src, pos) {
        parse_number(src, pos)
    } else {
        let end = scan_word(src, pos);
        proof {
            lemma_word_end(src.spec_bytes(), pos as int);
        }
        if word_eq(src, pos, end, "true") {
            Ok((truth(true, slice(src, pos, end)), end))
        } else if word_eq(src, pos, end, "false") {
            Ok((truth(false, slice(src, pos, end)), end))
        } else if end > pos {
            match parse_ident(src, pos) {
                Ok((name, next)) => Ok((Literal::Ident(name), next)),
                Err(failure) => Err(failure),
            }
        } else {
            fail(pos, Expected::Literal)
        }
    }
}

/// Recognizes the literals of an array or a tuple after its opening bracket.
fn parse_elements<'a>(src: &'a str, pos: usize, close: u8) -> (r: Result<
    (Array<'a>, usize),
    Failure,
>)
    requires
        pos <= src.spec_bytes().len(),
        close < 0x80,
    ensures
        outcome(r) == elements_rule(src.spec_bytes(), pos as int, close, Seq::empty()),
        in_text(r, pos, src.spec_bytes()),
    decreases src.spec_bytes().len() - pos, 50int,
{
    let ghost s = src.spec_bytes();
    let mut items: Vec<Literal<'a>> = Vec::new();
    let mut cur = pos;
    assert(literals_view(items@) =~= Seq::empty());
    loop
        invariant
            s == src.spec_bytes(),
            pos <= cur <= s.len(),
            is_edge(s, pos as int) ==> is_edge(s, cur as int),
            close < 0x80,
            elements_rule(s, pos as int, close, Seq::empty()) == elements_rule(
                s,
                cur as int,
                close,
                literals_view(items@),
            ),
        decreases s.len() - cur,
    {
        let start = scan_class(src, cur, ByteClass::Blank);
        if items.len() == 0 && at(src, start, close) {
            proof {
                lemma_literals_view(items);
            }
            return Ok((Array(items), start + 1));
        }
        match parse_literal(src, start) {
            Ok((item, next)) => {
                let sep = scan_class(src, next, ByteClass::Blank);
                let ghost before = literals_view(items@);
                if at(src, sep, ',' as u8) {
                    items.push(item);
                    assert(literals_view(items@) =~= before.push(item@));
                    cur = sep + 1;
                } else if at(src, sep, close) {
                    items.push(item);
                    assert(literals_view(items@) =~= before.push(item@));
                    proof {
                        lemma_literals_view(items);
                    }
                    return Ok((Array(items), sep + 1));
                } else {
                    return fail(sep, Expected::Byte(close));
                }
            },
            Err(failure) => {
                return Err(failure);
            },
        }
    }
}

/// Recognizes the entries of a map after its opening bracket.
pub fn parse_entries<'a>(src: &'a str, pos: usize) -> (r: Result<(MapLit<'a>, usize), Failure>)
    requires
        pos <= src.spec_bytes().len(),
    ensures
        outcome(r) == entries_rule(src.spec_bytes(), pos as int, Seq::empty()),
        in_text(r, pos, src.spec_bytes()),
    decreases src.spec_bytes().len() - pos, 50int,
{
    let ghost s = src.spec_bytes();
    let mut entries: Vec<(Symbol<'a>, Box<Expr<'a>>)> = Vec::new();
    let mut cur = pos;
    assert(entries_view(entries@) =~= Seq::empty());
    loop
        invariant
            s == src.spec_bytes(),
            pos <= cur <= s.len(),
            is_edge(s, pos as int) ==> is_edge(s, cur as int),
            entries_rule(s, pos as int, Seq::empty()) == entries_rule(
                s,
                cur as int,
                entries_view(entries@),
            ),
        decreases s.len() - cur,
    {
        let start = scan_class(src, cur, ByteClass::Blank);
        if entries.len() == 0 && at(src, start, '}' as u8) {
            proof {
                lemma_entries_view(entries);
            }
            return Ok((MapLit(entries), start + 1));
        }
        let colon = scan_word(src, start);
        if colon <= start {
            return fail(start, Expected::Identifier);
        }
        if !at(src, colon, ':' as u8) {
            return fail(colon, Expected::Byte(':' as u8));
        }
        proof {
            lemma_word_end(s, start as int);
        }
        let key = Symbol(slice(src, start, colon));
        let value_start = scan_class(src, colon + 1, ByteClass::Blank);
        match parse_expr(src, value_start) {
            Ok((value, next)) => {
                let sep = scan_class(src, next, ByteClass::Blank);
                let ghost before = entries_view(entries@);
                if at(src, sep, ',' as u8) {
                    entries.push((key, Box::new(value)));
                    assert(entries_view(entries@) =~= before.push((key@, value@)));
                    cur = sep + 1;
                } else if at(src, sep, '}' as u8) {
                    entries.push((key, Box::new(value)));
                    assert(entries_view(entries@) =~= before.push((key@, value@)));
                    proof {
                        lemma_entries_view(entries);
                    }
                    return Ok((MapLit(entries), sep + 1));
                } else {
                    return fail(sep, Expected::Byte('}' as u8));
                }
            },
            Err(failure) => {
                return Err(failure);
            },
        }
    }
}

/// Recognizes an expression at `pos`.
pub fn parse_expr<'a>(src: &'a str, pos: usize) -> (r: Result<(Expr<'a>, usize), Failure>)
    requires
        pos <= src.spec_bytes().len(),
    ensures
        outcome(r) == expr_rule(src.spec_bytes(), pos as int),
        in_text(r, pos, src.spec_bytes()),
    decreases src.spec_bytes().len() - pos, 40int,
{
    parse_binary(src, pos, 0)
}

/// Recognizes an expression of operators that bind at `level` or tighter.
pub fn parse_binary<'a>(src: &'a str, pos: usize, level: u8) -> (r: Result<
    (Expr<'a>, usize),
    Failure,
>)
    requires
        pos <= src.spec_bytes().len(),
    ensures
        outcome(r) == binary_rule(src.spec_bytes(), pos as int, level as nat),
        in_text(r, pos, src.spec_bytes()),
    decreases src.spec_bytes().len() - pos,
        if level < 6 {
            30int - 2 * level
        } else {
            12int
        },
{
    let ghost s = src.spec_bytes();
    if level >= 6 {
        return parse_unary(src, pos);
    }
    let (first, first_end) = match parse_binary(src, pos, level + 1) {
        Ok(found) => found,
        Err(failure) => {
            return Err(failure);
        },
    };
    if level == 5 {
        assert(binary_rule(s, pos as int, 5) == power_rule(s, first_end as int, first@));
        let op = scan_class(src, first_end, ByteClass::Inline);
        return match lex_binary_op(src, op, 5) {
            Some(end) => {
                let start = scan_class(src, end, ByteClass::Inline);
                match parse_binary(src, start, 5) {
                    Ok((right, next)) => Ok(
                        (call_two(Ident(slice(src, op, end)), first, right), next),
                    ),
                    Err(failure) => Err(failure),
                }
            },
            None => Ok((first, first_end)),
        };
    }
    let mut left = first;
    let mut cur = first_end;
    loop
        invariant
            s == src.spec_bytes(),
            level < 5,
            pos < cur <= s.len(),
            is_edge(s, pos as int) ==> is_edge(s, cur as int),
            binary_rule(s, pos as int, level as nat) == chain_rule(
                s,
                cur as int,
                level as nat,
                left@,
            ),
        decreases s.len() - cur,
    {
        let op = scan_class(src, cur, ByteClass::Inline);
        match lex_binary_op(src, op, level) {
            Some(end) => {
                let start = scan_class(src, end, ByteClass::Inline);
                match parse_binary(src, start, level + 1) {
                    Ok((right, next)) => {
                        left = call_two(Ident(slice(src, op, end)), left, right);
                        cur = next;
                    },
                    Err(failure) => {
                        return Err(failure);
                    },
                }
            },
            None => {
                return Ok((left, cur));
            },
        }
    }
}

/// Recognizes an operand with its prefix operators and field accesses.
pub fn parse_unary<'a>(src: &'a str, pos: usize) -> (r: Result<(Expr<'a>, usize), Failure>)
    requires
        pos <= src.spec_bytes().len(),
    ensures
        outcome(r) == unary_rule(src.spec_bytes(), pos as int),
        in_text(r, pos, src.spec_bytes()),
    decreases src.spec_bytes().len() - pos, 10int,
{
    let ghost s = src.spec_bytes();
    match lex_prefix_op(src, pos) {
        Some(end) => {
            let start = scan_class(src, end, ByteClass::Inline);
            return match parse_unary(src, start) {
                Ok((operand, next)) => Ok((call_one(Ident(slice(src, pos, end)), operand), next)),
                Err(failure) => Err(failure),
            };
        },
        None => {},
    }
    let (first, first_end) = match parse_primary(src, pos) {
        Ok(found) => found,
        Err(failure) => {
            return Err(failure);
        },
    };
    let mut left = first;
    let mut cur = first_end;
    loop
        invariant
            s == src.spec_bytes(),
            pos < cur <= s.len(),
            is_edge(s, pos as int) ==> is_edge(s, cur as int),
            unary_rule(s, pos as int) == dots_rule(s, cur as int, left@),
        decreases s.len() - cur,
    {
        if !at(src, cur, '.' as u8) {
            return Ok((left, cur));
        }
        match parse_named(src, cur + 1) {
            Ok((member, next)) => {
                left = Expr::Dot(Box::new(left), Box::new(member));
                cur = next;
            },
            Err(failure) => {
                return Err(failure);
            },
        }
    }
}

/// Recognizes an identifier or the call of one.
pub fn parse_named<'a>(src: &'a str, pos: usize) -> (r: Result<(Expr<'a>, usize), Failure>)
    requires
        pos <= src.spec_bytes().len(),
    ensures
        outcome(r) == named_rule(src.spec_bytes(), pos as int),
        in_text(r, pos, src.spec_bytes()),
    decreases src.spec_bytes().len() - pos, 5int,
{
    match parse_ident(src, pos) {
        Ok((name, next)) => {
            if at(src, next, '(' as u8) {
                match parse_args(src, next + 1) {
                    Ok((args, end)) => {
                        proof {
                            lemma_call_view(name, args);
                        }
                        Ok((Expr::FnCall(FnCall { name, args }), end))
                    },
                    Err(failure) => Err(failure),
                }
            } else {
                Ok((Expr::Ident(name), next))
            }
        },
        Err(failure) => Err(failure),
    }
}

/// Recognizes the arguments of a call after its opening parenthesis.
pub fn parse_args<'a>(src: &'a str, pos: usize) -> (r: Result<
    (Vec<Box<Expr<'a>>>, usize),
    Failure,
>)
    requires
        pos <= src.spec_bytes().len(),
    ensures
        outcome_by(r, |args: Vec<Box<Expr<'a>>>| exprs_view(args@)) == args_rule(
            src.spec_bytes(),
            pos as int,
            Seq::empty(),
        ),
        in_text(r, pos, src.spec_bytes()),
    decreases src.spec_bytes().len() - pos, 50int,
{
    let ghost s = src.spec_bytes();
    let mut args: Vec<Box<Expr<'a>>> = Vec::new();
    let mut cur = pos;
    assert(exprs_view(args@) =~= Seq::empty());
    loop
        invariant
            s == src.spec_bytes(),
            pos <= cur <= s.len(),
            is_edge(s, pos as int) ==> is_edge(s, cur as int),
            args_rule(s, pos as int, Seq::empty()) == args_rule(s, cur as int, exprs_view(args@)),
        decreases s.len() - cur,
    {
        let start = scan_class(src, cur, ByteClass::Blank);
        if args.len() == 0 && at(src, start, ')' as u8) {
            return Ok((args, start + 1));
        }
        match parse_expr(src, start) {
            Ok((arg, next)) => {
                let sep = scan_class(src, next, ByteClass::Blank);
                let ghost before = exprs_view(args@);
                if at(src, sep, ',' as u8) {
                    args.push(Box::new(arg));
                    assert(exprs_view(args@) =~= before.push(arg@));
                    cur = sep + 1;
                } else if at(src, sep, ')' as u8) {
                    args.push(Box::new(arg));
                    assert(exprs_view(args@) =~= before.push(arg@));
                    return Ok((args, sep + 1));
                } else {
                    return fail(sep, Expected::Byte(')' as u8));
                }
            },
            Err(failure) => {
                return Err(failure);
            },
        }
    }
}

/// Recognizes an operand at `pos`.
pub fn parse_primary<'a>(src: &'a str, pos: usize) -> (r: Result<(Expr<'a>, usize), Failure>)
    requires
        pos <= src.spec_bytes().len(),
    ensures
        outcome(r) == primary_rule(src.spec_bytes(), pos as int),
        in_text(r, pos, src.spec_bytes()),
    decreases src.spec_bytes().len() - pos, 7int,
{
    let ghost s = src.spec_bytes();
    if at(src, pos, '(' as u8) {
        let start = scan_class(src, pos + 1, ByteClass::Blank);
        return match parse_expr(src, start) {
            Ok((inner, next)) => {
                let close = scan_class(src, next, ByteClass::Blank);
                if at(src, close, ')' as u8) {
                    Ok((inner, close + 1))
                } else {
                    fail(close, Expected::Byte(')' as u8))
                }
            },
            Err(failure) => Err(failure),
        };
    }
    let end = scan_word(src, pos);
    if (at(src, pos, 'b' as u8) && at(src, pos + 1, '"' as u8)) || end <= pos {
        return match parse_literal(src, pos) {
            Ok((value, next)) => Ok((Expr::Literal(value), next)),
            Err(failure) => Err(failure),
        };
    }
    proof {
        lemma_word_end(s, pos as int);
    }
    match lex_keyword(src, pos, end) {
        Some(Keyword::If) => parse_branch(src, end, false),
        Some(Keyword::Unless) => parse_branch(src, end, true),
        Some(Keyword::Loop) => {
            let start = scan_class(src, end, ByteClass::Inline);
            match parse_block(src, start) {
                Ok((body, next)) => Ok((Expr::Loop(body), next)),
                Err(failure) => Err(failure),
            }
        },
        Some(Keyword::While) => match parse_guarded(src, end) {
            Ok(((test, body), next)) => Ok((Expr::While(Box::new(test), body), next)),
            Err(failure) => Err(failure),
        },
        Some(Keyword::Until) => match parse_guarded(src, end) {
            Ok(((test, body), next)) => Ok((Expr::Until(Box::new(test), body), next)),
            Err(failure) => Err(failure),
        },
        Some(Keyword::For) => parse_for(src, end),
        Some(Keyword::Return) => parse_return(src, pos, end),
        Some(_) => fail(pos, Expected::Expression),
        None => {
            if word_eq(src, pos, end, "continue") {
                parse_continue(src, end)
            } else if word_eq(src, pos, end, "break") {
                parse_break(src, end)
            } else if word_eq(src, pos, end, "true") {
                Ok((Expr::Literal(truth(true, slice(src, pos, end))), end))
            } else if word_eq(src, pos, end, "false") {
                Ok((Expr::Literal(truth(false, slice(src, pos, end))), end))
            } else {
                parse_named(src, pos)
            }
        },
    }
}

/// Recognizes a condition and the block it guards, after a keyword.
pub fn parse_guarded<'a>(src: &'a str, pos: usize) -> (r: Result<
    ((Expr<'a>, Block<'a>), usize),
    Failure,
>)
    requires
        pos <= src.spec_bytes().len(),
    ensures
        outcome(r) == guarded_rule(src.spec_bytes(), pos as int),
        in_text(r, pos, src.spec_bytes()),
    decreases src.spec_bytes().len() - pos, 49int,
{
    let start = scan_class(src, pos, ByteClass::Inline);
    match parse_expr(src, start) {
        Ok((test, next)) => {
            let open = scan_class(src, next, ByteClass::Inline);
            match parse_block(src, open) {
                Ok((body, end)) => Ok(((test, body), end)),
                Err(failure) => Err(failure),
            }
        },
        Err(failure) => Err(failure),
    }
}

/// Builds an `if`, or with `negated` an `unless`.
fn make_branch<'a>(
    negated: bool,
    test: Expr<'a>,
    body: Block<'a>,
    otherwise: Option<Block<'a>>,
) -> (r: Expr<'a>)
    ensures
        r@ == branch(
            negated,
            test@,
            body@,
            match otherwise {
                Some(block) => Some(block@),
                None => None,
            },
        ),
{
    if negated {
        Expr::Unless(Box::new(test), body, otherwise)
    } else {
        Expr::If(Box::new(test), body, otherwise)
    }
}

/// Builds the block that holds one expression.
fn block_of<'a>(expr: Expr<'a>) -> (r: Block<'a>)
    ensures
        r@ == seq![StmtView::Expr(expr@)],
{
    let mut stmts: Vec<Stmt<'a>> = Vec::new();
    stmts.push(Stmt::Expr(Box::new(expr)));
    proof {
        lemma_stmts_view(stmts);
        assert(stmts_view(stmts@) =~= seq![StmtView::Expr(expr@)]);
    }
    Block(stmts)
}

/// Recognizes an `if` or an `unless` after its keyword.
pub fn parse_branch<'a>(src: &'a str, pos: usize, negated: bool) -> (r: Result<
    (Expr<'a>, usize),
    Failure,
>)
    requires
        pos <= src.spec_bytes().len(),
    ensures
        outcome(r) == branch_rule(src.spec_bytes(), pos as int, negated),
        in_text(r, pos, src.spec_bytes()),
    decreases src.spec_bytes().len() - pos, 50int,
{
    let ghost s = src.spec_bytes();
    let ((test, body), next) = match parse_guarded(src, pos) {
        Ok(found) => found,
        Err(failure) => {
            return Err(failure);
        },
    };
    let other = scan_class(src, next, ByteClass::Blank);
    match parse_keyword(src, other) {
        Some((Keyword::ElseIf, end)) => match parse_branch(src, end, false) {
            Ok((nested, last)) => Ok(
                (make_branch(negated, test, body, Some(block_of(nested))), last),
            ),
            Err(failure) => Err(failure),
        },
        Some((Keyword::ElseUnless, end)) => match parse_branch(src, end, true) {
            Ok((nested, last)) => Ok(
                (make_branch(negated, test, body, Some(block_of(nested))), last),
            ),
            Err(failure) => Err(failure),
        },
        Some((Keyword::Else, end)) => {
            let open = scan_class(src, end, ByteClass::Inline);
            match parse_block(src, open) {
                Ok((otherwise, last)) => Ok(
                    (make_branch(negated, test, body, Some(otherwise)), last),
                ),
                Err(failure) => Err(failure),
            }
        },
        _ => Ok((make_branch(negated, test, body, None), next)),
    }
}

/// Recognizes a `for` after its keyword.
pub fn parse_for<'a>(src: &'a str, pos: usize) -> (r: Result<(Expr<'a>, usize), Failure>)
    requires
        pos <= src.spec_bytes().len(),
    ensures
        outcome(r) == for_rule(src.spec_bytes(), pos as int),
        in_text(r, pos, src.spec_bytes()),
    decreases src.spec_bytes().len() - pos, 50int,
{
    let start = scan_class(src, pos, ByteClass::Inline);
    match parse_expr(src, start) {
        Ok((binder, next)) => {
            let word = scan_class(src, next, ByteClass::Inline);
            let word_end = scan_word(src, word);
            proof {
                lemma_word_end(src.spec_bytes(), word as int);
            }
            if lex_keyword(src, word, word_end) == Some(Keyword::In) {
                match parse_guarded(src, word_end) {
                    Ok(((source, body), end)) => Ok(
                        (Expr::For(Box::new(binder), Box::new(source), body), end),
                    ),
                    Err(failure) => Err(failure),
                }
            } else {
                fail(word, Expected::In)
            }
        },
        Err(failure) => Err(failure),
    }
}

/// Recognizes a `continue` after its keyword.
fn parse_continue<'a>(src: &'a str, pos: usize) -> (r: Result<(Expr<'a>, usize), Failure>)
    requires
        0 < pos <= src.spec_bytes().len(),
        is_cut(src.spec_bytes(), pos as int),
    ensures
        outcome(r) == continue_rule(src.spec_bytes(), pos as int),
        r matches Ok((_, next)) && pos <= next <= src.spec_bytes().len() && is_edge(
            src.spec_bytes(),
            next as int,
        ),
{
    proof {
        lemma_source_is_utf8(src);
        lemma_cut_is_edge(src.spec_bytes(), pos as int);
    }
    let start = scan_class(src, pos, ByteClass::Inline);
    match parse_ident(src, start) {
        Ok((label, next)) => Ok((Expr::Continue(label.0), next)),
        Err(_) => {
            let label = slice(src, pos, pos);
            assert(label.spec_bytes() =~= Seq::empty());
            Ok((Expr::Continue(label), pos))
        },
    }
}

/// Recognizes a `break` after its keyword.
fn parse_break<'a>(src: &'a str, pos: usize) -> (r: Result<(Expr<'a>, usize), Failure>)
    requires
        0 < pos <= src.spec_bytes().len(),
        is_cut(src.spec_bytes(), pos as int),
    ensures
        outcome(r) == break_rule(src.spec_bytes(), pos as int),
        match r {
            Ok((_, next)) => pos <= next <= src.spec_bytes().len() && is_edge(
                src.spec_bytes(),
                next as int,
            ),
            Err(failure) => failure.offset <= src.spec_bytes().len() && is_edge(
                src.spec_bytes(),
                failure.offset as int,
            ),
        },
    decreases src.spec_bytes().len() - pos, 50int,
{
    proof {
        lemma_source_is_utf8(src);
        lemma_cut_is_edge(src.spec_bytes(), pos as int);
    }
    let none = slice(src, pos, pos);
    assert(none.spec_bytes() =~= Seq::empty());
    let start = scan_class(src, pos, ByteClass::Inline);
    if statement_ends(src, start) {
        return Ok((Expr::Break(None, none), pos));
    }
    match parse_expr(src, start) {
        Ok((value, next)) => {
            let label_start = scan_class(src, next, ByteClass::Inline);
            match parse_ident(src, label_start) {
                Ok((label, end)) => Ok((Expr::Break(Some(Box::new(value)), label.0), end)),
                Err(_) => match value {
                    Expr::Ident(label) => Ok((Expr::Break(None, label.0), next)),
                    other => Ok((Expr::Break(Some(Box::new(other)), none), next)),
                },
            }
        },
        Err(failure) => Err(failure),
    }
}

/// Recognizes a `return`, whose keyword stands from `pos` to `end`.
fn parse_return<'a>(src: &'a str, pos: usize, end: usize) -> (r: Result<
    (Expr<'a>, usize),
    Failure,
>)
    requires
        pos < end <= src.spec_bytes().len(),
        is_cut(src.spec_bytes(), pos as int),
        is_cut(src.spec_bytes(), end as int),
    ensures
        outcome(r) == return_rule(src.spec_bytes(), pos as int, end as int),
        in_text(r, pos, src.spec_bytes()),
    decreases src.spec_bytes().len() - end, 50int,
{
    proof {
        lemma_source_is_utf8(src);
        lemma_cut_is_edge(src.spec_bytes(), pos as int);
        lemma_cut_is_edge(src.spec_bytes(), end as int);
    }
    let name = Ident(slice(src, pos, end));
    let start = scan_class(src, end, ByteClass::Inline);
    if statement_ends(src, start) {
        return Ok((call_none(name), end));
    }
    match parse_expr(src, start) {
        Ok((value, next)) => Ok((call_one(name, value), next)),
        Err(failure) => Err(failure),
    }
}

/// Recognizes a block at `pos`.
pub fn parse_block<'a>(src: &'a str, pos: usize) -> (r: Result<(Block<'a>, usize), Failure>)
    requires
        pos <= src.spec_bytes().len(),
    ensures
        outcome(r) == block_rule(src.spec_bytes(), pos as int),
        in_text(r, pos, src.spec_bytes()),
    decreases src.spec_bytes().len() - pos, 45int,
{
    let ghost s = src.spec_bytes();
    if !at(src, pos, '{' as u8) {
        return fail(pos, Expected::Byte('{' as u8));
    }
    let mut stmts: Vec<Stmt<'a>> = Vec::new();
    let mut cur = pos + 1;
    assert(stmts_view(stmts@) =~= Seq::empty());
    loop
        invariant
            s == src.spec_bytes(),
            pos < cur <= s.len(),
            is_edge(s, pos as int) ==> is_edge(s, cur as int),
            block_rule(s, pos as int) == items_rule(s, cur as int, stmts_view(stmts@)),
        decreases s.len() - cur,
    {
        let start = scan_class(src, cur, ByteClass::Blank);
        if at(src, start, '}' as u8) {
            proof {
                lemma_stmts_view(stmts);
            }
            return Ok((Block(stmts), start + 1));
        }
        match parse_stmt(src, start) {
            Ok((item, next)) => {
                let end = scan_class(src, next, ByteClass::Inline);
                if !statement_ends(src, end) {
                    return fail(end, Expected::LineEnd);
                }
                let ghost before = stmts_view(stmts@);
                stmts.push(item);
                assert(stmts_view(stmts@) =~= before.push(item@));
                cur = end;
            },
            Err(failure) => {
                return Err(failure);
            },
        }
    }
}

/// Whether `=`, and not `==`, stands at `pos`.
fn assigns(src: &str, pos: usize) -> (r: bool)
    ensures
        r == assigns_at(src.spec_bytes(), pos as int),
        r ==> pos < src.spec_bytes().len() <= usize::MAX && is_edge(src.spec_bytes(), pos + 1),
{
    at(src, pos, '=' as u8) && !at(src, pos + 1, '=' as u8)
}

/// Recognizes the right side of the assignment to `name`.
pub fn parse_assign<'a>(src: &'a str, pos: usize, name: Ident<'a>, ty: Option<Ty<'a>>) -> (r:
    Result<(Stmt<'a>, usize), Failure>)
    requires
        pos <= src.spec_bytes().len(),
    ensures
        outcome(r) == assign_rule(
            src.spec_bytes(),
            pos as int,
            name@,
            match ty {
                Some(t) => Some(t@),
                None => None,
            },
        ),
        in_text(r, pos, src.spec_bytes()),
    decreases src.spec_bytes().len() - pos, 50int,
{
    let start = scan_class(src, pos, ByteClass::Inline);
    match parse_expr(src, start) {
        Ok((rhs, next)) => Ok((Stmt::VarAssign(VarAssign { name, ty, rhs: Box::new(rhs) }), next)),
        Err(failure) => Err(failure),
    }
}

/// Recognizes what follows the colon at `pos` in the assignment to `name`.
fn parse_typed<'a>(src: &'a str, pos: usize, name: Ident<'a>) -> (r: Result<
    (Stmt<'a>, usize),
    Failure,
>)
    requires
        byte_is(src.spec_bytes(), pos as int, ':' as u8),
    ensures
        outcome(r) == typed_rule(src.spec_bytes(), pos as int, name@),
        in_text(r, pos, src.spec_bytes()),
    decreases src.spec_bytes().len() - pos, 51int,
{
    let colon = at(src, pos, ':' as u8);
    let ty_start = scan_class(src, pos + 1, ByteClass::Inline);
    match parse_ty(src, ty_start) {
        Ok((ty, after)) => {
            let eq = scan_class(src, after, ByteClass::Inline);
            if assigns(src, eq) {
                parse_assign(src, eq + 1, name, Some(ty))
            } else {
                fail(eq, Expected::Byte('=' as u8))
            }
        },
        Err(failure) => Err(failure),
    }
}

/// Recognizes an expression as a statement.
pub fn parse_effect<'a>(src: &'a str, pos: usize) -> (r: Result<(Stmt<'a>, usize), Failure>)
    requires
        pos <= src.spec_bytes().len(),
    ensures
        outcome(r) == effect_rule(src.spec_bytes(), pos as int),
        in_text(r, pos, src.spec_bytes()),
    decreases src.spec_bytes().len() - pos, 41int,
{
    match parse_expr(src, pos) {
        Ok((left, next)) => {
            let op_start = scan_class(src, next, ByteClass::Inline);
            match Operator::lex(src, op_start) {
                Some((op, end)) => {
                    if op.is_compound() {
                        let start = scan_class(src, end, ByteClass::Inline);
                        match parse_expr(src, start) {
                            Ok((right, last)) => Ok(
                                (
                                    Stmt::Expr(
                                        Box::new(
                                            call_two(
                                                Ident(slice(src, op_start, end)),
                                                left,
                                                right,
                                            ),
                                        ),
                                    ),
                                    last,
                                ),
                            ),
                            Err(failure) => Err(failure),
                        }
                    } else {
                        Ok((Stmt::Expr(Box::new(left)), next))
                    }
                },
                None => Ok((Stmt::Expr(Box::new(left)), next)),
            }
        },
        Err(failure) => Err(failure),
    }
}

/// Recognizes a statement at `pos`.
pub fn parse_stmt<'a>(src: &'a str, pos: usize) -> (r: Result<(Stmt<'a>, usize), Failure>)
    requires
        pos <= src.spec_bytes().len(),
    ensures
        outcome(r) == stmt_rule(src.spec_bytes(), pos as int),
        in_text(r, pos, src.spec_bytes()),
    decreases src.spec_bytes().len() - pos, 42int,
{
    if at(src, pos, '/' as u8) && at(src, pos + 1, '/' as u8) {
        return match parse_comment(src, pos) {
            Ok((comment, next)) => Ok((Stmt::Comment(comment), next)),
            Err(failure) => Err(failure),
        };
    }
    match parse_ident(src, pos) {
        Ok((name, next)) => {
            let mark = scan_class(src, next, ByteClass::Inline);
            if at(src, mark, ':' as u8) {
                parse_typed(src, mark, name)
            } else if assigns(src, mark) {
                parse_assign(src, mark + 1, name, None)
            } else {
                parse_effect(src, pos)
            }
        },
        Err(_) => parse_effect(src, pos),
    }
}

} // verus!
