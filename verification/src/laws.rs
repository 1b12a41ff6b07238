//! What holds of the grammar as a whole, stated over its rules and proved
//! from their definitions.

use crate::decl::{
    fields_in, fields_rule, fn_decl_rule, params_rule, ty_decl_rule, ty_ident_rule, variants_rule,
    well_named,
};
use crate::error::{fault, Expected, Failure, Fault};
use crate::grammar::{binary_rule, expr_rule, literal_rule, primary_rule, unary_rule};
use crate::hir::{Comment, Program, Text};
use crate::lexical::{comment_lines, comment_rule, has_marker, ident_rule, next_marker, ustr_rule};
use crate::program::program_rule;
use crate::text::{byte_is, is_ident_tail, lemma_scan_end, skip, skip_inline, ByteClass};
use crate::view::{CommentView, FnDeclView, TopStmtView, TyIdentView, TyVariantView};
use crate::words::{is_reserved, keyword_at, word_end};
use vstd::prelude::*;
use vstd::utf8::encode_utf8;

verus! {

/// Whether `text` holds no line break.
pub open spec fn on_one_line(text: Text) -> bool {
    forall|k: int| 0 <= k < text.len() ==> text[k] != '\n' as u8 && text[k] != '\r' as u8
}

/// A comment of one line is read back as the text after its marker: where
/// the marker at `pos` is followed by `text`, which holds no line break and
/// runs to the end of its line, and the next line does not go on with the
/// comment, the comment rule yields a single-line comment of exactly `text`.
pub proof fn law_single_line_comment(s: Text, pos: int, text: Text)
    requires
        has_marker(s, pos),
        pos + 2 + text.len() <= s.len(),
        s.subrange(pos + 2, pos + 2 + text.len()) == text,
        on_one_line(text),
        pos + 2 + text.len() < s.len() ==> s[pos + 2 + text.len()] == '\n' as u8 || s[pos + 2
            + text.len()] == '\r' as u8,
        next_marker(s, pos + 2 + text.len()) is None,
    ensures
        comment_rule(s, pos) == Ok::<(CommentView, int), Fault>(
            (CommentView::SingleLine(text), pos + 2 + text.len()),
        ),
{
    let end = pos + 2 + text.len();
    assert forall|k: int| pos + 2 <= k < end implies ByteClass::LineBody.has(#[trigger] s[k]) by {
        assert(s[k] == text[k - (pos + 2)]);
    }
    lemma_scan_end(s, pos + 2, end, ByteClass::LineBody);
    assert(comment_lines(s, pos) == (seq![text], end));
}

/// A single-line comment is shown as the text it holds.
pub proof fn law_comment_renders_its_text(comment: Comment, text: Text)
    requires
        comment@ == CommentView::SingleLine(text),
    ensures
        encode_utf8(comment.rendered()) == text,
{
}

/// Whether `name` is written as an identifier is: a letter, then the
/// characters of identifiers, and not a reserved word.
pub open spec fn is_name(name: Text) -> bool {
    &&& name.len() > 0
    &&& crate::text::is_alpha(name[0])
    &&& forall|k: int| 1 <= k < name.len() ==> is_ident_tail(#[trigger] name[k])
    &&& !is_reserved(name)
}

/// Whether the name `name` stands in `s` at `pos` and ends there: no
/// character of an identifier follows it.
pub open spec fn spells_name(s: Text, pos: int, name: Text) -> bool {
    &&& is_name(name)
    &&& 0 <= pos
    &&& pos + name.len() <= s.len()
    &&& s.subrange(pos, pos + name.len()) == name
    &&& (pos + name.len() < s.len() ==> !is_ident_tail(s[pos + name.len()]))
}

/// A name that stands in the text is read as an identifier.
pub proof fn lemma_name_is_read(s: Text, pos: int, name: Text)
    requires
        spells_name(s, pos, name),
    ensures
        ident_rule(s, pos) == Ok::<(Text, int), Fault>((name, pos + name.len())),
{
    let end = pos + name.len();
    assert(s[pos] == name[0]);
    assert forall|k: int| pos + 1 <= k < end implies ByteClass::IdentTail.has(#[trigger] s[k]) by {
        assert(s[k] == name[k - pos]);
    }
    lemma_scan_end(s, pos + 1, end, ByteClass::IdentTail);
}

/// Whether `s` holds at `pos` the parameters `params` as they are commonly
/// written, `name: type` with `, ` between them, and then the closing
/// parenthesis, after which `end` lies.
pub open spec fn spells_params(s: Text, pos: int, params: Seq<TyIdentView>, end: int) -> bool
    decreases params.len(),
{
    if params.len() == 0 {
        byte_is(s, pos, ')' as u8) && end == pos + 1
    } else {
        let colon = pos + params[0].ident.len();
        let after = colon + 2 + params[0].ty.len();
        &&& spells_name(s, pos, params[0].ident)
        &&& byte_is(s, colon, ':' as u8)
        &&& byte_is(s, colon + 1, ' ' as u8)
        &&& spells_name(s, colon + 2, params[0].ty)
        &&& if params.len() == 1 {
            byte_is(s, after, ')' as u8) && end == after + 1
        } else {
            byte_is(s, after, ',' as u8) && byte_is(s, after + 1, ' ' as u8) && spells_params(
                s,
                after + 2,
                params.drop_first(),
                end,
            )
        }
    }
}

/// White space is skipped up to the first byte that is none.
proof fn lemma_skip_stops(s: Text, pos: int, class: ByteClass)
    requires
        0 <= pos <= s.len(),
        pos < s.len() ==> !class.has(s[pos]),
    ensures
        skip(s, pos, class) == pos,
{
}

/// One parameter as commonly written is read as that parameter.
proof fn lemma_param_is_read(s: Text, pos: int, param: TyIdentView)
    requires
        spells_name(s, pos, param.ident),
        byte_is(s, pos + param.ident.len(), ':' as u8),
        byte_is(s, pos + param.ident.len() + 1, ' ' as u8),
        spells_name(s, pos + param.ident.len() + 2, param.ty),
    ensures
        ty_ident_rule(s, pos) == Ok::<(TyIdentView, int), Fault>(
            (param, pos + param.ident.len() + 2 + param.ty.len()),
        ),
{
    let colon = pos + param.ident.len();
    lemma_name_is_read(s, pos, param.ident);
    lemma_skip_stops(s, colon, ByteClass::Inline);
    let ty = colon + 2;
    assert(s[ty] == param.ty[0]);
    lemma_scan_end(s, colon + 1, ty, ByteClass::Inline);
    lemma_name_is_read(s, ty, param.ty);
}

/// Parameters as commonly written are read as they stand: as many as were
/// written, in the order written, each with its type. `done` holds the
/// parameters read before `pos`, and is empty where there are none to read.
pub proof fn law_params_are_read(
    s: Text,
    pos: int,
    params: Seq<TyIdentView>,
    end: int,
    done: Seq<TyIdentView>,
)
    requires
        spells_params(s, pos, params, end),
        0 <= pos <= s.len(),
        params.len() == 0 ==> done.len() == 0,
    ensures
        params_rule(s, pos, done) == Ok::<(Seq<TyIdentView>, int), Fault>((done + params, end)),
    decreases params.len(),
{
    if params.len() == 0 {
        lemma_skip_stops(s, pos, ByteClass::Blank);
        assert(done + params =~= done);
    } else {
        let first = params[0];
        let after = pos + first.ident.len() + 2 + first.ty.len();
        assert(s[pos] == first.ident[0]);
        lemma_skip_stops(s, pos, ByteClass::Blank);
        lemma_param_is_read(s, pos, first);
        lemma_skip_stops(s, after, ByteClass::Blank);
        if params.len() == 1 {
            assert(done + params =~= done.push(first));
        } else {
            let rest = params.drop_first();
            law_params_are_read(s, after + 2, rest, end, done.push(first));
            assert(spells_params(s, after + 2, rest, end));
            assert(spells_name(s, after + 2, rest[0].ident));
            assert(s[after + 2] == s.subrange(after + 2, after + 2 + rest[0].ident.len())[0]);
            lemma_scan_end(s, after + 1, after + 2, ByteClass::Blank);
            assert(params_rule(s, after + 1, done.push(first)) == params_rule(
                s,
                after + 2,
                done.push(first),
            )) by {
                lemma_skip_stops(s, after + 2, ByteClass::Blank);
            }
            assert(done.push(first) + rest =~= done + params);
        }
    }
}

/// A function declaration holds the parameters that were written for it:
/// where the parameter list of a declaration that parses spells `params`,
/// its arguments are `params`, as many and in that order.
pub proof fn law_fn_decl_args(
    s: Text,
    pos: int,
    name: Text,
    open: int,
    params: Seq<TyIdentView>,
    close: int,
    decl: FnDeclView,
    end: int,
)
    requires
        ident_rule(s, skip_inline(s, pos)) == Ok::<(Text, int), Fault>((name, open)),
        byte_is(s, open, '(' as u8),
        spells_params(s, open + 1, params, close),
        fn_decl_rule(s, pos) == Ok::<(FnDeclView, int), Fault>((decl, end)),
    ensures
        decl.name == name,
        decl.args == params,
        decl.args.len() == params.len(),
{
    law_params_are_read(s, open + 1, params, close, Seq::empty());
    assert(Seq::<TyIdentView>::empty() + params =~= params);
}

/// A type of one variant parses whether or not the variant has a name.
pub proof fn law_lone_variant(s: Text, pos: int, variants: Seq<TyVariantView>, end: int)
    requires
        variants_rule(s, skip_inline(s, pos), Seq::empty()) == Ok::<
            (Seq<TyVariantView>, int),
            Fault,
        >((variants, end)),
        variants.len() == 1,
    ensures
        ty_decl_rule(s, pos) == Ok::<(Seq<TyVariantView>, int), Fault>((variants, end)),
{
}

/// A type of several variants, one of which has no name, does not parse:
/// it fails where the declaration begins.
pub proof fn law_unnamed_among_several(
    s: Text,
    pos: int,
    variants: Seq<TyVariantView>,
    end: int,
    k: int,
)
    requires
        variants_rule(s, skip_inline(s, pos), Seq::empty()) == Ok::<
            (Seq<TyVariantView>, int),
            Fault,
        >((variants, end)),
        variants.len() >= 2,
        0 <= k < variants.len(),
        variants[k].name is None,
    ensures
        ty_decl_rule(s, pos) == fault::<Seq<TyVariantView>>(pos, Expected::VariantName),
{
}

/// Every type declaration that parses is named as a type needs.
pub proof fn law_ty_decl_is_well_named(s: Text, pos: int)
    ensures
        ty_decl_rule(s, pos) matches Ok((variants, _)) ==> well_named(variants),
{
}

/// A variant that mixes named and anonymous fields does not parse: it
/// fails at its opening parenthesis.
pub proof fn law_mixed_fields(
    s: Text,
    open: int,
    named: Seq<TyIdentView>,
    anonymous: Seq<Text>,
    end: int,
)
    requires
        byte_is(s, open, '(' as u8),
        fields_rule(s, open + 1, Seq::empty(), Seq::empty()) == Ok::<
            ((Seq<TyIdentView>, Seq<Text>), int),
            Fault,
        >(((named, anonymous), end)),
        named.len() > 0,
        anonymous.len() > 0,
    ensures
        fields_in(s, open) == fault::<crate::view::FieldsView>(open, Expected::UniformFields),
{
}

/// An expression that begins with a string literal which is not closed on
/// its line fails at the quote that opens the literal.
pub proof fn law_unterminated_string(s: Text, pos: int, line_end: int)
    requires
        byte_is(s, pos, '"' as u8),
        pos < line_end <= s.len(),
        forall|k: int| pos < k < line_end ==> s[k] != '"' as u8 && s[k] != '\n' as u8,
        line_end < s.len() ==> s[line_end] == '\n' as u8,
    ensures
        ustr_rule(s, pos) == fault::<Text>(pos, Expected::ClosingQuote),
        expr_rule(s, pos) == fault::<crate::view::ExprView>(pos, Expected::ClosingQuote),
{
    assert forall|k: int| pos + 1 <= k < line_end implies ByteClass::StringBody.has(
        #[trigger] s[k],
    ) by {}
    lemma_scan_end(s, pos + 1, line_end, ByteClass::StringBody);
    let failed = fault::<crate::view::ExprView>(pos, Expected::ClosingQuote);
    assert(literal_rule(s, pos) == fault::<crate::view::LiteralView>(
        pos,
        Expected::ClosingQuote,
    ));
    assert(word_end(s, pos) == pos);
    assert(primary_rule(s, pos) == failed);
    assert(keyword_at(s, pos) is None);
    assert(unary_rule(s, pos) == failed);
    assert(binary_rule(s, pos, 6) == failed);
    assert(binary_rule(s, pos, 5) == failed);
    assert(binary_rule(s, pos, 4) == failed);
    assert(binary_rule(s, pos, 3) == failed);
    assert(binary_rule(s, pos, 2) == failed);
    assert(binary_rule(s, pos, 1) == failed);
    assert(binary_rule(s, pos, 0) == failed);
}

/// What a parse of the text `s` may return: the program that the grammar
/// yields for `s`, or the fault at which it gives up.
pub open spec fn parsed_as(s: Text, r: Result<Program, Failure>) -> bool {
    match r {
        Ok(program) => program_rule(s) == Ok::<Seq<TopStmtView>, Fault>(program@),
        Err(failure) => program_rule(s) == Err::<Seq<TopStmtView>, Fault>(failure@),
    }
}

/// Parsing is a function of the text: two parses of one text both succeed
/// or both fail, with trees that are alike or at the same fault.
pub proof fn law_parse_is_a_function(
    s: Text,
    first: Result<Program, Failure>,
    second: Result<Program, Failure>,
)
    requires
        parsed_as(s, first),
        parsed_as(s, second),
    ensures
        first is Ok <==> second is Ok,
        first matches Ok(p) ==> second matches Ok(q) && p@ == q@,
        first matches Err(f) ==> second matches Err(g) && f == g,
{
}

} // verus!
