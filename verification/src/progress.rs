//! Every rule of the grammar moves forward: a match ends after the position
//! at which the rule was applied, and inside the text. So the guard that the
//! definitions of the rules carry, [`within`], never turns a match away.

use crate::decl::{
    fields_end_rule, fields_rule, fn_decl_rule, has_arrow, params_rule, top_rule, ty_ident_rule,
    variant_rule, variants_rule,
};
use crate::error::Parsed;
use crate::grammar::{
    args_rule, assign_rule, assigns_at, binary_op, binary_rule, block_rule, branch_rule,
    break_rule, chain_rule, continue_rule, dots_rule, effect_rule, elements_rule, ends_statement,
    entries_rule, expr_rule, for_rule, guarded_rule, items_rule, literal_rule, named_rule,
    power_rule, prefix_op, primary_rule, return_rule, stmt_rule, unary_rule, within,
};
use crate::hir::Text;
use crate::lexical::{
    bstr_rule, char_rule, comment_lines, comment_rule, has_marker, ident_rule, next_marker,
    number_rule, symbol_rule, ustr_rule,
};
use crate::text::{byte_is, lemma_scan, scan, skip_blank, skip_inline, ByteClass};
use crate::view::{ExprView, LiteralView, StmtView, TyIdentView, TyVariantView};
use crate::words::{keyword_at, keyword_rule, word_at, word_end, Keyword, Operator};
use vstd::prelude::*;

verus! {

/// Whether a match of `r`, the result of a rule applied at `pos`, ends after
/// `pos` and inside a text of `len` bytes.
pub open spec fn advances<T>(r: Parsed<T>, pos: int, len: nat) -> bool {
    r matches Ok((_, next)) ==> pos < next <= len
}

/// Whether a match of `r`, the result of a rule that may consume nothing,
/// ends at or after `pos` and inside a text of `len` bytes.
pub open spec fn holds<T>(r: Parsed<T>, pos: int, len: nat) -> bool {
    r matches Ok((_, next)) ==> pos <= next <= len
}

/// The lines of a comment end after its marker.
proof fn lemma_comment_lines(s: Text, pos: int)
    requires
        has_marker(s, pos),
    ensures
        pos + 2 <= comment_lines(s, pos).1 <= s.len(),
    decreases s.len() - pos,
{
    lemma_scan(s, pos + 2, ByteClass::LineBody);
    let end = scan(s, pos + 2, ByteClass::LineBody);
    match next_marker(s, end) {
        Some(next) => {
            if pos < next < s.len() {
                lemma_comment_lines(s, next);
            }
        },
        None => {},
    }
}

/// The rules of the tokens move forward.
pub proof fn law_tokens_advance(s: Text, pos: int)
    requires
        0 <= pos <= s.len(),
    ensures
        advances(ident_rule(s, pos), pos, s.len()),
        advances(symbol_rule(s, pos), pos, s.len()),
        advances(number_rule(s, pos), pos, s.len()),
        advances(ustr_rule(s, pos), pos, s.len()),
        advances(bstr_rule(s, pos), pos, s.len()),
        advances(char_rule(s, pos), pos, s.len()),
        advances(comment_rule(s, pos), pos, s.len()),
{
    if pos < s.len() {
        lemma_scan(s, pos + 1, ByteClass::StringBody);
        lemma_scan(s, pos + 1, ByteClass::Digit);
    }
    lemma_scan(s, pos, ByteClass::Digit);
    if has_marker(s, pos) {
        lemma_comment_lines(s, pos);
    }
    if pos + 2 <= s.len() {
        lemma_scan(s, pos + 2, ByteClass::AsciiBody);
        lemma_scan(s, scan(s, pos + 2, ByteClass::AsciiBody), ByteClass::StringBody);
    }
    let first = crate::lexical::digits_start(s, pos);
    let whole = scan(s, first, ByteClass::Digit);
    if 0 <= whole <= s.len() {
        if whole + 1 <= s.len() {
            lemma_scan(s, whole + 1, ByteClass::Digit);
        }
        let fraction = crate::lexical::fraction_end(s, whole);
        if 0 <= fraction < s.len() {
            lemma_scan(s, crate::lexical::digits_start(s, fraction + 1), ByteClass::Digit);
        }
    }
}

/// A literal moves forward.
pub proof fn law_literal_advances(s: Text, pos: int)
    requires
        0 <= pos <= s.len(),
    ensures
        advances(literal_rule(s, pos), pos, s.len()),
    decreases s.len() - pos, 3int,
{
    law_tokens_advance(s, pos);
    if byte_is(s, pos, '#' as u8) {
        if byte_is(s, pos + 1, '[' as u8) {
            law_elements_advance(s, pos + 2, ']' as u8, Seq::empty());
        } else if byte_is(s, pos + 1, '(' as u8) {
            law_elements_advance(s, pos + 2, ')' as u8, Seq::empty());
        } else if byte_is(s, pos + 1, '{' as u8) {
            law_entries_advance(s, pos + 2, Seq::empty());
        }
    }
}

/// The elements of a list move forward.
pub proof fn law_elements_advance(s: Text, pos: int, close: u8, done: Seq<LiteralView>)
    requires
        0 <= pos <= s.len(),
    ensures
        advances(elements_rule(s, pos, close, done), pos, s.len()),
    decreases s.len() - pos, 50int,
{
    let start = skip_blank(s, pos);
    if !(done.len() == 0 && byte_is(s, start, close)) {
        law_literal_advances(s, start);
        match within(s, start, literal_rule(s, start)) {
            Ok((item, next)) => {
                let sep = skip_blank(s, next);
                if byte_is(s, sep, ',' as u8) {
                    law_elements_advance(s, sep + 1, close, done.push(item));
                }
            },
            Err(_) => {},
        }
    }
}

/// The entries of a map move forward.
pub proof fn law_entries_advance(s: Text, pos: int, done: Seq<(Text, ExprView)>)
    requires
        0 <= pos <= s.len(),
    ensures
        advances(entries_rule(s, pos, done), pos, s.len()),
    decreases s.len() - pos, 50int,
{
    let start = skip_blank(s, pos);
    let colon = word_end(s, start);
    if !(done.len() == 0 && byte_is(s, start, '}' as u8)) && colon > start && byte_is(
        s,
        colon,
        ':' as u8,
    ) {
        law_expr_advances(s, skip_blank(s, colon + 1));
        match within(s, colon, expr_rule(s, skip_blank(s, colon + 1))) {
            Ok((value, next)) => {
                let sep = skip_blank(s, next);
                if byte_is(s, sep, ',' as u8) {
                    law_entries_advance(s, sep + 1, done.push((word_at(s, start), value)));
                }
            },
            Err(_) => {},
        }
    }
}

/// An expression moves forward.
pub proof fn law_expr_advances(s: Text, pos: int)
    requires
        0 <= pos <= s.len(),
    ensures
        advances(expr_rule(s, pos), pos, s.len()),
    decreases s.len() - pos, 40int,
{
    law_binary_advances(s, pos, 0);
}

/// An expression of operators moves forward.
pub proof fn law_binary_advances(s: Text, pos: int, level: nat)
    requires
        0 <= pos <= s.len(),
    ensures
        advances(binary_rule(s, pos, level), pos, s.len()),
    decreases s.len() - pos,
        if level < 6 {
            30int - 2 * level
        } else {
            12int
        },
{
    if level >= 6 {
        law_unary_advances(s, pos);
    } else {
        law_binary_advances(s, pos, level + 1);
        match within(s, pos, binary_rule(s, pos, level + 1)) {
            Ok((left, next)) => {
                if level == 5 {
                    law_power_holds(s, next, left);
                } else {
                    law_chain_holds(s, next, level, left);
                }
            },
            Err(_) => {},
        }
    }
}

/// What follows an operand at the level of `^` does not move back.
pub proof fn law_power_holds(s: Text, pos: int, left: ExprView)
    requires
        0 <= pos <= s.len(),
    ensures
        holds(power_rule(s, pos, left), pos, s.len()),
    decreases s.len() - pos, 50int,
{
    let op = skip_inline(s, pos);
    match binary_op(s, op, 5) {
        Some(end) => {
            if op < end <= s.len() {
                law_binary_advances(s, skip_inline(s, end), 5);
            }
        },
        None => {},
    }
}

/// What follows an operand at a level does not move back.
pub proof fn law_chain_holds(s: Text, pos: int, level: nat, left: ExprView)
    requires
        0 <= pos <= s.len(),
    ensures
        holds(chain_rule(s, pos, level, left), pos, s.len()),
    decreases s.len() - pos, 50int,
{
    let op = skip_inline(s, pos);
    match binary_op(s, op, level) {
        Some(end) => {
            if op < end <= s.len() {
                law_binary_advances(s, skip_inline(s, end), level + 1);
                match within(s, end, binary_rule(s, skip_inline(s, end), level + 1)) {
                    Ok((right, next)) => {
                        law_chain_holds(
                            s,
                            next,
                            level,
                            crate::grammar::call(s.subrange(op, end), seq![left, right]),
                        );
                    },
                    Err(_) => {},
                }
            }
        },
        None => {},
    }
}

/// An operand with its prefix operators moves forward.
pub proof fn law_unary_advances(s: Text, pos: int)
    requires
        0 <= pos <= s.len(),
    ensures
        advances(unary_rule(s, pos), pos, s.len()),
    decreases s.len() - pos, 10int,
{
    let go_on = match prefix_op(s, pos) {
        Some(end) => !(pos < end <= s.len()),
        None => true,
    };
    if go_on {
        law_primary_advances(s, pos);
        match within(s, pos, primary_rule(s, pos)) {
            Ok((first, next)) => {
                law_dots_hold(s, next, first);
            },
            Err(_) => {},
        }
    } else {
        law_unary_advances(s, skip_inline(s, prefix_op(s, pos)->0));
    }
}

/// The field accesses that follow an operand do not move back.
pub proof fn law_dots_hold(s: Text, pos: int, left: ExprView)
    requires
        0 <= pos <= s.len(),
    ensures
        holds(dots_rule(s, pos, left), pos, s.len()),
    decreases s.len() - pos, 50int,
{
    if byte_is(s, pos, '.' as u8) {
        law_named_advances(s, pos + 1);
        match within(s, pos, named_rule(s, pos + 1)) {
            Ok((member, next)) => {
                law_dots_hold(s, next, ExprView::Dot(Box::new(left), Box::new(member)));
            },
            Err(_) => {},
        }
    }
}

/// A name or a call moves forward.
pub proof fn law_named_advances(s: Text, pos: int)
    requires
        0 <= pos <= s.len(),
    ensures
        advances(named_rule(s, pos), pos, s.len()),
    decreases s.len() - pos, 5int,
{
    match ident_rule(s, pos) {
        Ok((name, next)) => {
            if byte_is(s, next, '(' as u8) && pos < next {
                law_args_advance(s, next + 1, Seq::empty());
            }
        },
        Err(_) => {},
    }
}

/// The arguments of a call move forward.
pub proof fn law_args_advance(s: Text, pos: int, done: Seq<ExprView>)
    requires
        0 <= pos <= s.len(),
    ensures
        advances(args_rule(s, pos, done), pos, s.len()),
    decreases s.len() - pos, 50int,
{
    let start = skip_blank(s, pos);
    if !(done.len() == 0 && byte_is(s, start, ')' as u8)) {
        law_expr_advances(s, start);
        match within(s, start, expr_rule(s, start)) {
            Ok((arg, next)) => {
                let sep = skip_blank(s, next);
                if byte_is(s, sep, ',' as u8) {
                    law_args_advance(s, sep + 1, done.push(arg));
                }
            },
            Err(_) => {},
        }
    }
}

/// An operand moves forward.
pub proof fn law_primary_advances(s: Text, pos: int)
    requires
        0 <= pos <= s.len(),
    ensures
        advances(primary_rule(s, pos), pos, s.len()),
    decreases s.len() - pos, 7int,
{
    let end = word_end(s, pos);
    if byte_is(s, pos, '(' as u8) {
        law_expr_advances(s, skip_blank(s, pos + 1));
    } else if byte_is(s, pos, 'b' as u8) && byte_is(s, pos + 1, '"' as u8) {
        law_literal_advances(s, pos);
    } else if pos < end <= s.len() {
        match keyword_at(s, pos) {
            Some(Keyword::If) => law_branch_advances(s, end, false),
            Some(Keyword::Unless) => law_branch_advances(s, end, true),
            Some(Keyword::Loop) => law_block_advances(s, skip_inline(s, end)),
            Some(Keyword::While) => law_guarded_advances(s, end),
            Some(Keyword::Until) => law_guarded_advances(s, end),
            Some(Keyword::For) => law_for_advances(s, end),
            Some(Keyword::Return) => law_return_holds(s, pos, end),
            Some(_) => {},
            None => {
                law_break_holds(s, end);
                law_tokens_advance(s, skip_inline(s, end));
                law_named_advances(s, pos);
            },
        }
    } else {
        law_literal_advances(s, pos);
    }
}

/// A condition with its block moves forward.
pub proof fn law_guarded_advances(s: Text, pos: int)
    requires
        0 <= pos <= s.len(),
    ensures
        advances(guarded_rule(s, pos), pos, s.len()),
    decreases s.len() - pos, 49int,
{
    law_expr_advances(s, skip_inline(s, pos));
    match within(s, pos, expr_rule(s, skip_inline(s, pos))) {
        Ok((test, next)) => {
            law_block_advances(s, skip_inline(s, next));
        },
        Err(_) => {},
    }
}

/// An `if` or an `unless` moves forward.
pub proof fn law_branch_advances(s: Text, pos: int, negated: bool)
    requires
        0 <= pos <= s.len(),
    ensures
        advances(branch_rule(s, pos, negated), pos, s.len()),
    decreases s.len() - pos, 50int,
{
    law_guarded_advances(s, pos);
    match within(s, pos, guarded_rule(s, pos)) {
        Ok(((test, body), next)) => {
            match keyword_rule(s, skip_blank(s, next)) {
                Some((Keyword::ElseIf, end)) => law_branch_advances(s, end, false),
                Some((Keyword::ElseUnless, end)) => law_branch_advances(s, end, true),
                Some((Keyword::Else, end)) => law_block_advances(s, skip_inline(s, end)),
                _ => {},
            }
        },
        Err(_) => {},
    }
}

/// A `for` moves forward.
pub proof fn law_for_advances(s: Text, pos: int)
    requires
        0 <= pos <= s.len(),
    ensures
        advances(for_rule(s, pos), pos, s.len()),
    decreases s.len() - pos, 50int,
{
    law_expr_advances(s, skip_inline(s, pos));
    match within(s, pos, expr_rule(s, skip_inline(s, pos))) {
        Ok((binder, next)) => {
            let word = skip_inline(s, next);
            if keyword_at(s, word) == Some(Keyword::In) {
                law_guarded_advances(s, word_end(s, word));
            }
        },
        Err(_) => {},
    }
}

/// A `break` does not move back.
pub proof fn law_break_holds(s: Text, pos: int)
    requires
        0 <= pos <= s.len(),
    ensures
        holds(break_rule(s, pos), pos, s.len()),
        holds(continue_rule(s, pos), pos, s.len()),
    decreases s.len() - pos, 50int,
{
    let start = skip_inline(s, pos);
    law_tokens_advance(s, start);
    if !ends_statement(s, start) {
        law_expr_advances(s, start);
        match within(s, pos, expr_rule(s, start)) {
            Ok((value, next)) => {
                law_tokens_advance(s, skip_inline(s, next));
            },
            Err(_) => {},
        }
    }
}

/// A `return` does not move back.
pub proof fn law_return_holds(s: Text, pos: int, end: int)
    requires
        0 <= pos < end <= s.len(),
    ensures
        holds(return_rule(s, pos, end), end, s.len()),
    decreases s.len() - end, 50int,
{
    let start = skip_inline(s, end);
    if !ends_statement(s, start) {
        law_expr_advances(s, start);
    }
}

/// A block moves forward.
pub proof fn law_block_advances(s: Text, pos: int)
    requires
        0 <= pos <= s.len(),
    ensures
        advances(block_rule(s, pos), pos, s.len()),
    decreases s.len() - pos, 45int,
{
    if byte_is(s, pos, '{' as u8) {
        law_items_advance(s, pos + 1, Seq::empty());
    }
}

/// The statements of a block move forward.
pub proof fn law_items_advance(s: Text, pos: int, done: Seq<StmtView>)
    requires
        0 <= pos <= s.len(),
    ensures
        advances(items_rule(s, pos, done), pos, s.len()),
    decreases s.len() - pos, 50int,
{
    let start = skip_blank(s, pos);
    if !byte_is(s, start, '}' as u8) {
        law_stmt_advances(s, start);
        match within(s, start, stmt_rule(s, start)) {
            Ok((item, next)) => {
                if ends_statement(s, skip_inline(s, next)) {
                    law_items_advance(s, skip_inline(s, next), done.push(item));
                }
            },
            Err(_) => {},
        }
    }
}

/// The right side of an assignment moves forward.
pub proof fn law_assign_advances(s: Text, pos: int, name: Text, ty: Option<Text>)
    requires
        0 <= pos <= s.len(),
    ensures
        advances(assign_rule(s, pos, name, ty), pos, s.len()),
    decreases s.len() - pos, 50int,
{
    law_expr_advances(s, skip_inline(s, pos));
}

/// An expression as a statement moves forward.
pub proof fn law_effect_advances(s: Text, pos: int)
    requires
        0 <= pos <= s.len(),
    ensures
        advances(effect_rule(s, pos), pos, s.len()),
    decreases s.len() - pos, 41int,
{
    law_expr_advances(s, pos);
    match within(s, pos, expr_rule(s, pos)) {
        Ok((left, next)) => {
            match Operator::at(s, skip_inline(s, next)) {
                Some((op, end)) => {
                    if op.assigns() {
                        law_expr_advances(s, skip_inline(s, end));
                    }
                },
                None => {},
            }
        },
        Err(_) => {},
    }
}

/// A statement moves forward.
pub proof fn law_stmt_advances(s: Text, pos: int)
    requires
        0 <= pos <= s.len(),
    ensures
        advances(stmt_rule(s, pos), pos, s.len()),
    decreases s.len() - pos, 42int,
{
    law_tokens_advance(s, pos);
    law_effect_advances(s, pos);
    match ident_rule(s, pos) {
        Ok((name, next)) => {
            let mark = skip_inline(s, next);
            if byte_is(s, mark, ':' as u8) && pos < next {
                law_tokens_advance(s, skip_inline(s, mark + 1));
                match ident_rule(s, skip_inline(s, mark + 1)) {
                    Ok((ty, after)) => {
                        if assigns_at(s, skip_inline(s, after)) && 0 <= mark < after {
                            law_assign_advances(s, skip_inline(s, after) + 1, name, Some(ty));
                        }
                    },
                    Err(_) => {},
                }
            } else if assigns_at(s, mark) && pos < next {
                law_assign_advances(s, mark + 1, name, None);
            }
        },
        Err(_) => {},
    }
}

/// An identifier with its type moves forward.
pub proof fn law_ty_ident_advances(s: Text, pos: int)
    requires
        0 <= pos <= s.len(),
    ensures
        advances(ty_ident_rule(s, pos), pos, s.len()),
{
}

/// The parameters of a function move forward.
pub proof fn law_params_advance(s: Text, pos: int, done: Seq<TyIdentView>)
    requires
        0 <= pos <= s.len(),
    ensures
        advances(params_rule(s, pos, done), pos, s.len()),
    decreases s.len() - pos,
{
    let start = skip_blank(s, pos);
    if !(done.len() == 0 && byte_is(s, start, ')' as u8)) {
        match within(s, start, ty_ident_rule(s, start)) {
            Ok((param, next)) => {
                let sep = skip_blank(s, next);
                if byte_is(s, sep, ',' as u8) {
                    law_params_advance(s, sep + 1, done.push(param));
                }
            },
            Err(_) => {},
        }
    }
}

/// A function declaration moves forward.
pub proof fn law_fn_decl_advances(s: Text, pos: int)
    requires
        0 <= pos <= s.len(),
    ensures
        advances(fn_decl_rule(s, pos), pos, s.len()),
{
    match ident_rule(s, skip_inline(s, pos)) {
        Ok((name, open)) => {
            if byte_is(s, open, '(' as u8) {
                law_params_advance(s, open + 1, Seq::empty());
                match params_rule(s, open + 1, Seq::empty()) {
                    Ok((args, after)) => {
                        let arrow = skip_inline(s, after);
                        if has_arrow(s, arrow) {
                            match ident_rule(s, skip_inline(s, arrow + 2)) {
                                Ok((ty, end)) => {
                                    law_block_advances(s, skip_inline(s, end));
                                },
                                Err(_) => {},
                            }
                        } else {
                            law_block_advances(s, arrow);
                        }
                    },
                    Err(_) => {},
                }
            }
        },
        Err(_) => {},
    }
}

/// The fields of a variant move forward.
pub proof fn law_fields_advance(
    s: Text,
    pos: int,
    named: Seq<TyIdentView>,
    anonymous: Seq<Text>,
)
    requires
        0 <= pos <= s.len(),
    ensures
        advances(fields_rule(s, pos, named, anonymous), pos, s.len()),
        advances(fields_end_rule(s, pos, named, anonymous), pos, s.len()),
    decreases s.len() - pos,
{
    let start = skip_blank(s, pos);
    if !(named.len() == 0 && anonymous.len() == 0 && byte_is(s, start, ')' as u8)) {
        match within(s, start, ident_rule(s, start)) {
            Ok((first, next)) => {
                if byte_is(s, skip_inline(s, next), ':' as u8) {
                    match within(
                        s,
                        next,
                        ident_rule(s, skip_inline(s, skip_inline(s, next) + 1)),
                    ) {
                        Ok((ty, end)) => {
                            let more = named.push(TyIdentView { ident: first, ty });
                            if byte_is(s, skip_blank(s, end), ',' as u8) {
                                law_fields_advance(s, skip_blank(s, end) + 1, more, anonymous);
                            }
                        },
                        Err(_) => {},
                    }
                } else {
                    if byte_is(s, skip_blank(s, next), ',' as u8) {
                        law_fields_advance(
                            s,
                            skip_blank(s, next) + 1,
                            named,
                            anonymous.push(first),
                        );
                    }
                }
            },
            Err(_) => {},
        }
    }
    if byte_is(s, skip_blank(s, pos), ',' as u8) {
        law_fields_advance(s, skip_blank(s, pos) + 1, named, anonymous);
    }
}

/// A variant of a type moves forward.
pub proof fn law_variant_advances(s: Text, pos: int)
    requires
        0 <= pos <= s.len(),
    ensures
        advances(variant_rule(s, pos), pos, s.len()),
{
    if byte_is(s, pos, '(' as u8) {
        law_fields_advance(s, pos + 1, Seq::empty(), Seq::empty());
    } else {
        match ident_rule(s, pos) {
            Ok((name, next)) => {
                if byte_is(s, next, '(' as u8) {
                    law_fields_advance(s, next + 1, Seq::empty(), Seq::empty());
                }
            },
            Err(_) => {},
        }
    }
}

/// The variants of a type move forward.
pub proof fn law_variants_advance(s: Text, pos: int, done: Seq<TyVariantView>)
    requires
        0 <= pos <= s.len(),
    ensures
        advances(variants_rule(s, pos, done), pos, s.len()),
    decreases s.len() - pos,
{
    law_variant_advances(s, pos);
    match within(s, pos, variant_rule(s, pos)) {
        Ok((variant, next)) => {
            if byte_is(s, skip_blank(s, next), '|' as u8) {
                law_variants_advance(
                    s,
                    skip_blank(s, skip_blank(s, next) + 1),
                    done.push(variant),
                );
            }
        },
        Err(_) => {},
    }
}

/// A top-level statement moves forward.
pub proof fn law_top_advances(s: Text, pos: int)
    requires
        0 <= pos <= s.len(),
    ensures
        advances(top_rule(s, pos), pos, s.len()),
{
    law_tokens_advance(s, pos);
    let end = word_end(s, pos);
    if pos < end <= s.len() {
        law_fn_decl_advances(s, end);
        law_variants_advance(s, skip_inline(s, end), Seq::empty());
    }
}

/// The guard never turns a match away: what a rule applied at `pos`
/// yields counts in full, for any place at or before `pos` that the guard
/// is told.
pub proof fn law_guard_is_idle(s: Text, from: int, pos: int)
    requires
        0 <= from <= pos <= s.len(),
    ensures
        within(s, from, literal_rule(s, pos)) == literal_rule(s, pos),
        within(s, from, expr_rule(s, pos)) == expr_rule(s, pos),
        forall|level: nat|
            within(s, from, #[trigger] binary_rule(s, pos, level)) == binary_rule(s, pos, level),
        within(s, from, primary_rule(s, pos)) == primary_rule(s, pos),
        within(s, from, named_rule(s, pos)) == named_rule(s, pos),
        within(s, from, guarded_rule(s, pos)) == guarded_rule(s, pos),
        within(s, from, stmt_rule(s, pos)) == stmt_rule(s, pos),
        within(s, from, ident_rule(s, pos)) == ident_rule(s, pos),
        within(s, from, ty_ident_rule(s, pos)) == ty_ident_rule(s, pos),
        within(s, from, variant_rule(s, pos)) == variant_rule(s, pos),
        within(s, from, top_rule(s, pos)) == top_rule(s, pos),
{
    law_tokens_advance(s, pos);
    law_ty_ident_advances(s, pos);
    law_variant_advances(s, pos);
    law_top_advances(s, pos);
    law_literal_advances(s, pos);
    law_expr_advances(s, pos);
    assert forall|level: nat|
        within(s, from, #[trigger] binary_rule(s, pos, level)) == binary_rule(s, pos, level) by {
        law_binary_advances(s, pos, level);
    }
    law_primary_advances(s, pos);
    law_named_advances(s, pos);
    law_guarded_advances(s, pos);
    law_stmt_advances(s, pos);
}

} // verus!
