//! The grammar of literals, expressions, statements and blocks, as
//! specification functions.
//!
//! Every rule takes the text and a position and yields the value it
//! recognizes with the position after it, or the fault where it gave up.
//! Rules are tried in a fixed order and never look behind them. Once a rule
//! has seen the token that selects it, it is committed: what follows must
//! match, or the whole parse fails there.
//!
//! White space within a line may stand between the tokens of an
//! expression. Line breaks may also stand inside brackets. A statement ends
//! at the end of its line, at a comment, or at the brace that closes its
//! block.
//!
//! The rules call each other, so each must be seen to end. To that end a
//! rule says in places what is true anyway: that a position lies inside the
//! text, or that a match ended after the place where it began ([`within`]).
//! The module `progress` proves that these tests never fail.

use crate::error::{fault, Expected, Parsed};
use crate::hir::Text;
use crate::lexical::{
    bstr_rule, char_rule, comment_rule, has_marker, ident_rule, number_rule, symbol_rule,
    ustr_rule,
};
use crate::text::{byte_is, is_digit, skip_blank, skip_inline};
use crate::view::{ExprView, FnCallView, LiteralView, StmtView, VarAssignView};
use crate::words::{keyword_at, keyword_rule, word_at, word_end, word_is, Keyword, Operator};
use vstd::prelude::*;
use vstd::string::StringSliceAdditionalSpecFns;

verus! {

/// What `r`, the result of a rule applied at or after `from`, is worth to
/// the rule that applied it: a match counts only where it ends after `from`
/// and inside the text. Every rule of this grammar consumes at least one
/// byte, so nothing is lost; saying so keeps the definitions well-founded.
pub open spec fn within<T>(s: Text, from: int, r: Parsed<T>) -> Parsed<T> {
    match r {
        Ok((_, next)) if !(from < next <= s.len()) => fault(from, Expected::Expression),
        _ => r,
    }
}

/// The call of `name` on `args`.
pub open spec fn call(name: Text, args: Seq<ExprView>) -> ExprView {
    ExprView::FnCall(FnCallView { name, args })
}

/// Whether a statement may end at `pos`: at the end of the text or of the
/// line, before a comment, or before the brace that closes a block.
pub open spec fn ends_statement(s: Text, pos: int) -> bool {
    pos >= s.len() || s[pos] == '\n' as u8 || s[pos] == '}' as u8 || has_marker(s, pos)
}

/// Where the binary operator of the given level that stands at `pos` ends.
/// The levels, from the loosest: 0 `or`; 1 `and`, `xor`; 2 the comparisons;
/// 3 `+`, `-`; 4 `*`, `/`, `%`; 5 `^`. The marker of a comment is no
/// operator.
pub open spec fn binary_op(s: Text, pos: int, level: nat) -> Option<int> {
    if has_marker(s, pos) {
        None
    } else if level == 0 && keyword_at(s, pos) == Some(Keyword::Or) {
        Some(word_end(s, pos))
    } else if level == 1 && (keyword_at(s, pos) == Some(Keyword::And) || keyword_at(s, pos)
        == Some(Keyword::Xor)) {
        Some(word_end(s, pos))
    } else {
        match Operator::at(s, pos) {
            Some((op, end)) if op.binds() == Some(level) => Some(end),
            _ => None,
        }
    }
}

/// Whether a number begins at `pos`: a digit, or a sign and a digit.
pub open spec fn starts_number(s: Text, pos: int) -> bool {
    0 <= pos < s.len() && (is_digit(s[pos]) || ((s[pos] == '-' as u8 || s[pos] == '+' as u8) && pos
        + 1 < s.len() && is_digit(s[pos + 1])))
}

/// A literal, selected by its first bytes.
pub open spec fn literal_rule(s: Text, pos: int) -> Parsed<LiteralView>
    decreases s.len() - pos, 3int,
{
    if byte_is(s, pos, '"' as u8) {
        match ustr_rule(s, pos) {
            Ok((text, next)) => Ok((LiteralView::UStr(text), next)),
            Err(f) => Err(f),
        }
    } else if byte_is(s, pos, 'b' as u8) && byte_is(s, pos + 1, '"' as u8) {
        match bstr_rule(s, pos) {
            Ok(((bytes, text), next)) => Ok((LiteralView::BStr(bytes, text), next)),
            Err(f) => Err(f),
        }
    } else if byte_is(s, pos, '\'' as u8) {
        match char_rule(s, pos) {
            Ok(((value, text), next)) => Ok((LiteralView::Char(value, text), next)),
            Err(f) => Err(f),
        }
    } else if byte_is(s, pos, ':' as u8) {
        match symbol_rule(s, pos) {
            Ok((text, next)) => Ok((LiteralView::Symbol(text), next)),
            Err(f) => Err(f),
        }
    } else if byte_is(s, pos, '#' as u8) {
        if byte_is(s, pos + 1, '[' as u8) {
            match elements_rule(s, pos + 2, ']' as u8, Seq::empty()) {
                Ok((items, next)) => Ok((LiteralView::Array(items), next)),
                Err(f) => Err(f),
            }
        } else if byte_is(s, pos + 1, '(' as u8) {
            match elements_rule(s, pos + 2, ')' as u8, Seq::empty()) {
                Ok((items, next)) => Ok((LiteralView::Tuple(items), next)),
                Err(f) => Err(f),
            }
        } else if byte_is(s, pos + 1, '{' as u8) {
            match entries_rule(s, pos + 2, Seq::empty()) {
                Ok((entries, next)) => Ok((LiteralView::MapLit(entries), next)),
                Err(f) => Err(f),
            }
        } else {
            fault(pos + 1, Expected::Literal)
        }
    } else if starts_number(s, pos) {
        number_rule(s, pos)
    } else if word_is(s, pos, "true".spec_bytes()) {
        Ok((LiteralView::Bool(true, word_at(s, pos)), word_end(s, pos)))
    } else if word_is(s, pos, "false".spec_bytes()) {
        Ok((LiteralView::Bool(false, word_at(s, pos)), word_end(s, pos)))
    } else if word_end(s, pos) > pos {
        match ident_rule(s, pos) {
            Ok((name, next)) => Ok((LiteralView::Ident(name), next)),
            Err(f) => Err(f),
        }
    } else {
        fault(pos, Expected::Literal)
    }
}

/// The literals of an array or a tuple after its opening bracket, separated
/// by commas and closed by `close`. `done` holds those before `pos`.
pub open spec fn elements_rule(s: Text, pos: int, close: u8, done: Seq<LiteralView>) -> Parsed<
    Seq<LiteralView>,
>
    decreases s.len() - pos, 50int,
{
    let start = skip_blank(s, pos);
    if 0 <= pos <= s.len() {
        if done.len() == 0 && byte_is(s, start, close) {
            Ok((done, start + 1))
        } else {
            match within(s, start, literal_rule(s, start)) {
                Ok((item, next)) => {
                    let sep = skip_blank(s, next);
                    if byte_is(s, sep, ',' as u8) {
                        elements_rule(s, sep + 1, close, done.push(item))
                    } else if byte_is(s, sep, close) {
                        Ok((done.push(item), sep + 1))
                    } else {
                        fault(sep, Expected::Byte(close))
                    }
                },
                Err(f) => Err(f),
            }
        }
    } else {
        fault(pos, Expected::Literal)
    }
}

/// The entries of a map after its opening bracket: each a word, a colon and
/// an expression, separated by commas and closed by a brace. `done` holds
/// those before `pos`.
pub open spec fn entries_rule(s: Text, pos: int, done: Seq<(Text, ExprView)>) -> Parsed<
    Seq<(Text, ExprView)>,
>
    decreases s.len() - pos, 50int,
{
    let start = skip_blank(s, pos);
    let colon = word_end(s, start);
    if 0 <= pos <= s.len() {
        if done.len() == 0 && byte_is(s, start, '}' as u8) {
            Ok((done, start + 1))
        } else if colon <= start {
            fault(start, Expected::Identifier)
        } else if !byte_is(s, colon, ':' as u8) {
            fault(colon, Expected::Byte(':' as u8))
        } else {
            match within(s, colon, expr_rule(s, skip_blank(s, colon + 1))) {
                Ok((value, next)) => {
                    let sep = skip_blank(s, next);
                    if byte_is(s, sep, ',' as u8) {
                        entries_rule(s, sep + 1, done.push((word_at(s, start), value)))
                    } else if byte_is(s, sep, '}' as u8) {
                        Ok((done.push((word_at(s, start), value)), sep + 1))
                    } else {
                        fault(sep, Expected::Byte('}' as u8))
                    }
                },
                Err(f) => Err(f),
            }
        }
    } else {
        fault(pos, Expected::Literal)
    }
}

/// An expression.
pub open spec fn expr_rule(s: Text, pos: int) -> Parsed<ExprView>
    decreases s.len() - pos, 40int,
{
    binary_rule(s, pos, 0)
}

/// An expression of operators that bind at `level` or tighter. Operators of
/// one level group from the left, but for `^`, which groups from the right.
pub open spec fn binary_rule(s: Text, pos: int, level: nat) -> Parsed<ExprView>
    decreases s.len() - pos,
        if level < 6 {
            30int - 2 * level
        } else {
            12int
        },
{
    if level >= 6 {
        unary_rule(s, pos)
    } else {
        match within(s, pos, binary_rule(s, pos, level + 1)) {
            Ok((left, next)) => if level == 5 {
                power_rule(s, next, left)
            } else {
                chain_rule(s, next, level, left)
            },
            Err(f) => Err(f),
        }
    }
}

/// What follows the operand `left` at the level of `^`: the operator and
/// all that stands to its right, or nothing.
pub open spec fn power_rule(s: Text, pos: int, left: ExprView) -> Parsed<ExprView>
    decreases s.len() - pos, 50int,
{
    let op = skip_inline(s, pos);
    if 0 <= pos <= s.len() {
        match binary_op(s, op, 5) {
            Some(end) if op < end <= s.len() => match within(
                s,
                end,
                binary_rule(s, skip_inline(s, end), 5),
            ) {
                Ok((right, next)) => Ok((call(s.subrange(op, end), seq![left, right]), next)),
                Err(f) => Err(f),
            },
            _ => Ok((left, pos)),
        }
    } else {
        Ok((left, pos))
    }
}

/// What follows the operand `left` at `level`: operators of that level,
/// each with its right operand, applied from the left.
pub open spec fn chain_rule(s: Text, pos: int, level: nat, left: ExprView) -> Parsed<ExprView>
    decreases s.len() - pos, 50int,
{
    let op = skip_inline(s, pos);
    if 0 <= pos <= s.len() {
        match binary_op(s, op, level) {
            Some(end) if op < end <= s.len() => match within(
                s,
                end,
                binary_rule(s, skip_inline(s, end), level + 1),
            ) {
                Ok((right, next)) => chain_rule(
                    s,
                    next,
                    level,
                    call(s.subrange(op, end), seq![left, right]),
                ),
                Err(f) => Err(f),
            },
            _ => Ok((left, pos)),
        }
    } else {
        Ok((left, pos))
    }
}

/// Where the prefix operator that stands at `pos` ends: `not`, `@`, or a
/// `-` that does not begin a number.
pub open spec fn prefix_op(s: Text, pos: int) -> Option<int> {
    if keyword_at(s, pos) == Some(Keyword::Not) {
        Some(word_end(s, pos))
    } else if byte_is(s, pos, '@' as u8) || (byte_is(s, pos, '-' as u8) && !starts_number(s, pos)) {
        Some(pos + 1)
    } else {
        None
    }
}

/// An operand with its prefix operators, which bind tighter than any binary
/// operator.
pub open spec fn unary_rule(s: Text, pos: int) -> Parsed<ExprView>
    decreases s.len() - pos, 10int,
{
    match prefix_op(s, pos) {
        Some(end) if pos < end <= s.len() => match unary_rule(s, skip_inline(s, end)) {
            Ok((operand, next)) => Ok((call(s.subrange(pos, end), seq![operand]), next)),
            Err(f) => Err(f),
        },
        _ => match within(s, pos, primary_rule(s, pos)) {
            Ok((first, next)) => dots_rule(s, next, first),
            Err(f) => Err(f),
        },
    }
}

/// The field accesses that follow `left`, applied from the left.
pub open spec fn dots_rule(s: Text, pos: int, left: ExprView) -> Parsed<ExprView>
    decreases s.len() - pos, 50int,
{
    if byte_is(s, pos, '.' as u8) {
        match within(s, pos, named_rule(s, pos + 1)) {
            Ok((member, next)) => dots_rule(
                s,
                next,
                ExprView::Dot(Box::new(left), Box::new(member)),
            ),
            Err(f) => Err(f),
        }
    } else {
        Ok((left, pos))
    }
}

/// An identifier, or the call of one where an argument list follows it
/// directly.
pub open spec fn named_rule(s: Text, pos: int) -> Parsed<ExprView>
    decreases s.len() - pos, 5int,
{
    match ident_rule(s, pos) {
        Ok((name, next)) => if byte_is(s, next, '(' as u8) && pos < next {
            match args_rule(s, next + 1, Seq::empty()) {
                Ok((args, end)) => Ok((call(name, args), end)),
                Err(f) => Err(f),
            }
        } else {
            Ok((ExprView::Ident(name), next))
        },
        Err(f) => Err(f),
    }
}

/// The arguments of a call after its opening parenthesis, separated by
/// commas. `done` holds those before `pos`.
pub open spec fn args_rule(s: Text, pos: int, done: Seq<ExprView>) -> Parsed<Seq<ExprView>>
    decreases s.len() - pos, 50int,
{
    let start = skip_blank(s, pos);
    if 0 <= pos <= s.len() {
        if done.len() == 0 && byte_is(s, start, ')' as u8) {
            Ok((done, start + 1))
        } else {
            match within(s, start, expr_rule(s, start)) {
                Ok((arg, next)) => {
                    let sep = skip_blank(s, next);
                    if byte_is(s, sep, ',' as u8) {
                        args_rule(s, sep + 1, done.push(arg))
                    } else if byte_is(s, sep, ')' as u8) {
                        Ok((done.push(arg), sep + 1))
                    } else {
                        fault(sep, Expected::Byte(')' as u8))
                    }
                },
                Err(f) => Err(f),
            }
        }
    } else {
        fault(pos, Expected::Expression)
    }
}

/// An operand: an expression in parentheses, a control-flow expression, a
/// name or a call, or a literal.
pub open spec fn primary_rule(s: Text, pos: int) -> Parsed<ExprView>
    decreases s.len() - pos, 7int,
{
    let word = word_at(s, pos);
    let end = word_end(s, pos);
    if byte_is(s, pos, '(' as u8) {
        match within(s, pos, expr_rule(s, skip_blank(s, pos + 1))) {
            Ok((inner, next)) => if byte_is(s, skip_blank(s, next), ')' as u8) {
                Ok((inner, skip_blank(s, next) + 1))
            } else {
                fault(skip_blank(s, next), Expected::Byte(')' as u8))
            },
            Err(f) => Err(f),
        }
    } else if byte_is(s, pos, 'b' as u8) && byte_is(s, pos + 1, '"' as u8) {
        match literal_rule(s, pos) {
            Ok((value, next)) => Ok((ExprView::Literal(value), next)),
            Err(f) => Err(f),
        }
    } else if pos < end <= s.len() {
        match keyword_at(s, pos) {
            Some(Keyword::If) => branch_rule(s, end, false),
            Some(Keyword::Unless) => branch_rule(s, end, true),
            Some(Keyword::Loop) => match block_rule(s, skip_inline(s, end)) {
                Ok((body, next)) => Ok((ExprView::Loop(body), next)),
                Err(f) => Err(f),
            },
            Some(Keyword::While) => match guarded_rule(s, end) {
                Ok(((test, body), next)) => Ok((ExprView::While(Box::new(test), body), next)),
                Err(f) => Err(f),
            },
            Some(Keyword::Until) => match guarded_rule(s, end) {
                Ok(((test, body), next)) => Ok((ExprView::Until(Box::new(test), body), next)),
                Err(f) => Err(f),
            },
            Some(Keyword::For) => for_rule(s, end),
            Some(Keyword::Return) => return_rule(s, pos, end),
            Some(_) => fault(pos, Expected::Expression),
            None => if word == "continue".spec_bytes() {
                continue_rule(s, end)
            } else if word == "break".spec_bytes() {
                break_rule(s, end)
            } else if word == "true".spec_bytes() {
                Ok((ExprView::Literal(LiteralView::Bool(true, word)), end))
            } else if word == "false".spec_bytes() {
                Ok((ExprView::Literal(LiteralView::Bool(false, word)), end))
            } else {
                named_rule(s, pos)
            },
        }
    } else {
        match literal_rule(s, pos) {
            Ok((value, next)) => Ok((ExprView::Literal(value), next)),
            Err(f) => Err(f),
        }
    }
}

/// A condition and the block it guards, after the keyword that ends at `pos`.
pub open spec fn guarded_rule(s: Text, pos: int) -> Parsed<(ExprView, Seq<StmtView>)>
    decreases s.len() - pos, 49int,
{
    if 0 <= pos <= s.len() {
        match within(s, pos, expr_rule(s, skip_inline(s, pos))) {
            Ok((test, next)) => match block_rule(s, skip_inline(s, next)) {
                Ok((body, end)) => Ok(((test, body), end)),
                Err(f) => Err(f),
            },
            Err(f) => Err(f),
        }
    } else {
        fault(pos, Expected::Expression)
    }
}

/// An `if`, or with `negated` an `unless`.
pub open spec fn branch(
    negated: bool,
    test: ExprView,
    body: Seq<StmtView>,
    otherwise: Option<Seq<StmtView>>,
) -> ExprView {
    if negated {
        ExprView::Unless(Box::new(test), body, otherwise)
    } else {
        ExprView::If(Box::new(test), body, otherwise)
    }
}

/// An `if` or an `unless` after its keyword, which ends at `pos`: a
/// condition, a block, and then `else` with a block or nothing. `else if`
/// and `else unless` stand for an `else` block that holds that one
/// expression.
pub open spec fn branch_rule(s: Text, pos: int, negated: bool) -> Parsed<ExprView>
    decreases s.len() - pos, 50int,
{
    match within(s, pos, guarded_rule(s, pos)) {
        Ok(((test, body), next)) => match keyword_rule(s, skip_blank(s, next)) {
            Some((Keyword::ElseIf, end)) => match branch_rule(s, end, false) {
                Ok((nested, last)) => Ok(
                    (branch(negated, test, body, Some(seq![StmtView::Expr(nested)])), last),
                ),
                Err(f) => Err(f),
            },
            Some((Keyword::ElseUnless, end)) => match branch_rule(s, end, true) {
                Ok((nested, last)) => Ok(
                    (branch(negated, test, body, Some(seq![StmtView::Expr(nested)])), last),
                ),
                Err(f) => Err(f),
            },
            Some((Keyword::Else, end)) => match block_rule(s, skip_inline(s, end)) {
                Ok((otherwise, last)) => Ok(
                    (branch(negated, test, body, Some(otherwise)), last),
                ),
                Err(f) => Err(f),
            },
            _ => Ok((branch(negated, test, body, None), next)),
        },
        Err(f) => Err(f),
    }
}

/// A `for` after its keyword, which ends at `pos`: a binder, `in`, what is
/// iterated, and a block.
pub open spec fn for_rule(s: Text, pos: int) -> Parsed<ExprView>
    decreases s.len() - pos, 50int,
{
    if 0 <= pos <= s.len() {
        match within(s, pos, expr_rule(s, skip_inline(s, pos))) {
            Ok((binder, next)) => {
                let word = skip_inline(s, next);
                if keyword_at(s, word) == Some(Keyword::In) {
                    match guarded_rule(s, word_end(s, word)) {
                        Ok(((source, body), end)) => Ok(
                            (ExprView::For(Box::new(binder), Box::new(source), body), end),
                        ),
                        Err(f) => Err(f),
                    }
                } else {
                    fault(word, Expected::In)
                }
            },
            Err(f) => Err(f),
        }
    } else {
        fault(pos, Expected::Expression)
    }
}

/// A `continue` after its keyword, which ends at `pos`: a label or nothing.
/// Without a label the label is empty, which names the innermost loop.
pub open spec fn continue_rule(s: Text, pos: int) -> Parsed<ExprView> {
    match ident_rule(s, skip_inline(s, pos)) {
        Ok((label, next)) => Ok((ExprView::Continue(label), next)),
        Err(_) => Ok((ExprView::Continue(Seq::empty()), pos)),
    }
}

/// A `break` after its keyword, which ends at `pos`: a value or none, then
/// a label or none. A lone identifier is the label, not the value. Without
/// a label the label is empty, which names the innermost loop.
pub open spec fn break_rule(s: Text, pos: int) -> Parsed<ExprView>
    decreases s.len() - pos, 50int,
{
    let start = skip_inline(s, pos);
    if ends_statement(s, start) || !(0 <= pos <= s.len()) {
        Ok((ExprView::Break(None, Seq::empty()), pos))
    } else {
        match within(s, pos, expr_rule(s, start)) {
            Ok((value, next)) => match ident_rule(s, skip_inline(s, next)) {
                Ok((label, end)) => Ok((ExprView::Break(Some(Box::new(value)), label), end)),
                Err(_) => match value {
                    ExprView::Ident(label) => Ok((ExprView::Break(None, label), next)),
                    _ => Ok((ExprView::Break(Some(Box::new(value)), Seq::empty()), next)),
                },
            },
            Err(f) => Err(f),
        }
    }
}

/// A `return`, whose keyword stands from `pos` to `end`: the call of
/// `return` on the value that follows, or on nothing.
pub open spec fn return_rule(s: Text, pos: int, end: int) -> Parsed<ExprView>
    decreases s.len() - end, 50int,
{
    let start = skip_inline(s, end);
    if ends_statement(s, start) || !(0 <= end <= s.len()) {
        Ok((call(s.subrange(pos, end), Seq::empty()), end))
    } else {
        match expr_rule(s, start) {
            Ok((value, next)) => Ok((call(s.subrange(pos, end), seq![value]), next)),
            Err(f) => Err(f),
        }
    }
}

/// A block: statements between braces.
pub open spec fn block_rule(s: Text, pos: int) -> Parsed<Seq<StmtView>>
    decreases s.len() - pos, 45int,
{
    if byte_is(s, pos, '{' as u8) {
        items_rule(s, pos + 1, Seq::empty())
    } else {
        fault(pos, Expected::Byte('{' as u8))
    }
}

/// The statements of a block after its opening brace, up to the brace that
/// closes it. `done` holds those before `pos`.
pub open spec fn items_rule(s: Text, pos: int, done: Seq<StmtView>) -> Parsed<Seq<StmtView>>
    decreases s.len() - pos, 50int,
{
    let start = skip_blank(s, pos);
    if 0 <= pos <= s.len() {
        if byte_is(s, start, '}' as u8) {
            Ok((done, start + 1))
        } else {
            match within(s, start, stmt_rule(s, start)) {
                Ok((item, next)) => if ends_statement(s, skip_inline(s, next)) {
                    items_rule(s, skip_inline(s, next), done.push(item))
                } else {
                    fault(skip_inline(s, next), Expected::LineEnd)
                },
                Err(f) => Err(f),
            }
        }
    } else {
        fault(pos, Expected::Byte('}' as u8))
    }
}

/// Whether `=`, and not `==`, stands at `pos`.
pub open spec fn assigns_at(s: Text, pos: int) -> bool {
    byte_is(s, pos, '=' as u8) && !byte_is(s, pos + 1, '=' as u8)
}

/// The assignment of what follows `pos` to `name`.
pub open spec fn assign_rule(s: Text, pos: int, name: Text, ty: Option<Text>) -> Parsed<StmtView>
    decreases s.len() - pos, 50int,
{
    if 0 <= pos <= s.len() {
        match expr_rule(s, skip_inline(s, pos)) {
            Ok((rhs, next)) => Ok((StmtView::VarAssign(VarAssignView { name, ty, rhs }), next)),
            Err(f) => Err(f),
        }
    } else {
        fault(pos, Expected::Expression)
    }
}

/// What follows the colon at `pos` in the assignment to `name`: a type,
/// `=`, and the right side.
pub open spec fn typed_rule(s: Text, pos: int, name: Text) -> Parsed<StmtView>
    decreases s.len() - pos, 51int,
{
    match ident_rule(s, skip_inline(s, pos + 1)) {
        Ok((ty, after)) => if !assigns_at(s, skip_inline(s, after)) {
            fault(skip_inline(s, after), Expected::Byte('=' as u8))
        } else if 0 <= pos < after {
            assign_rule(s, skip_inline(s, after) + 1, name, Some(ty))
        } else {
            fault(pos, Expected::Identifier)
        },
        Err(f) => Err(f),
    }
}

/// An expression as a statement, which may be the left side of `+=` or of
/// another operator of its kind: that is the call of the operator on both
/// sides.
pub open spec fn effect_rule(s: Text, pos: int) -> Parsed<StmtView>
    decreases s.len() - pos, 41int,
{
    match within(s, pos, expr_rule(s, pos)) {
        Ok((left, next)) => match Operator::at(s, skip_inline(s, next)) {
            Some((op, end)) if op.assigns() => match expr_rule(s, skip_inline(s, end)) {
                Ok((right, last)) => Ok(
                    (
                        StmtView::Expr(
                            call(s.subrange(skip_inline(s, next), end), seq![left, right]),
                        ),
                        last,
                    ),
                ),
                Err(f) => Err(f),
            },
            _ => Ok((StmtView::Expr(left), next)),
        },
        Err(f) => Err(f),
    }
}

/// A statement: a comment, an assignment with or without a type, or an
/// expression.
pub open spec fn stmt_rule(s: Text, pos: int) -> Parsed<StmtView>
    decreases s.len() - pos, 42int,
{
    if has_marker(s, pos) {
        match comment_rule(s, pos) {
            Ok((comment, next)) => Ok((StmtView::Comment(comment), next)),
            Err(f) => Err(f),
        }
    } else {
        match ident_rule(s, pos) {
            Ok((name, next)) => {
                let mark = skip_inline(s, next);
                if byte_is(s, mark, ':' as u8) && pos < next {
                    typed_rule(s, mark, name)
                } else if assigns_at(s, mark) && pos < next {
                    assign_rule(s, mark + 1, name, None)
                } else {
                    effect_rule(s, pos)
                }
            },
            Err(_) => effect_rule(s, pos),
        }
    }
}

} // verus!
