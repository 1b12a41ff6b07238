//! The grammar of declarations, and the parser that computes it: `use`,
//! functions and types.

use crate::error::{fail, fault, in_text, outcome, outcome_by, Expected, Failure, Parsed};
use crate::grammar::{block_rule, within};
use crate::hir::{Fields, FnDecl, PathGlob, Text, TopStmt, Ty, TyDecl, TyIdent, TyVariant};
use crate::lexical::{comment_rule, has_marker, ident_rule, parse_comment, parse_ident, parse_ty};
use crate::parser::parse_block;
use crate::text::{
    at, byte_is, is_edge, lemma_scan, scan_class, skip, skip_blank, skip_inline, slice, ByteClass,
};
use crate::view::{
    ty_idents_view, tys_view, variants_view, FieldsView, FnDeclView, TopStmtView, TyIdentView,
    TyVariantView,
};
use crate::words::{
    keyword_at, lemma_word_end, lex_keyword, scan_word, word_end, word_eq, word_is, Keyword,
};
use vstd::prelude::*;
use vstd::string::StringSliceAdditionalSpecFns;

verus! {

/// An identifier with its type: `name: type`.
pub open spec fn ty_ident_rule(s: Text, pos: int) -> Parsed<TyIdentView> {
    match ident_rule(s, pos) {
        Ok((ident, next)) => {
            let colon = skip_inline(s, next);
            if byte_is(s, colon, ':' as u8) {
                match ident_rule(s, skip_inline(s, colon + 1)) {
                    Ok((ty, end)) => Ok((TyIdentView { ident, ty }, end)),
                    Err(f) => Err(f),
                }
            } else {
                fault(colon, Expected::Byte(':' as u8))
            }
        },
        Err(f) => Err(f),
    }
}

/// Recognizes an identifier with its type at `pos`.
pub fn parse_ty_ident<'a>(src: &'a str, pos: usize) -> (r: Result<(TyIdent<'a>, usize), Failure>)
    requires
        pos <= src.spec_bytes().len(),
    ensures
        outcome(r) == ty_ident_rule(src.spec_bytes(), pos as int),
        in_text(r, pos, src.spec_bytes()),
{
    match parse_ident(src, pos) {
        Ok((ident, next)) => {
            let colon = scan_class(src, next, ByteClass::Inline);
            if at(src, colon, ':' as u8) {
                let start = scan_class(src, colon + 1, ByteClass::Inline);
                match parse_ty(src, start) {
                    Ok((ty, end)) => Ok((TyIdent { ident, ty }, end)),
                    Err(failure) => Err(failure),
                }
            } else {
                fail(colon, Expected::Byte(':' as u8))
            }
        },
        Err(failure) => Err(failure),
    }
}

/// The parameters of a function after its opening parenthesis, separated
/// by commas. `done` holds those before `pos`.
pub open spec fn params_rule(s: Text, pos: int, done: Seq<TyIdentView>) -> Parsed<
    Seq<TyIdentView>,
>
    decreases s.len() - pos,
{
    let start = skip_blank(s, pos);
    if 0 <= pos <= s.len() {
        if done.len() == 0 && byte_is(s, start, ')' as u8) {
            Ok((done, start + 1))
        } else {
            match within(s, start, ty_ident_rule(s, start)) {
                Ok((param, next)) => {
                    let sep = skip_blank(s, next);
                    if byte_is(s, sep, ',' as u8) {
                        params_rule(s, sep + 1, done.push(param))
                    } else if byte_is(s, sep, ')' as u8) {
                        Ok((done.push(param), sep + 1))
                    } else {
                        fault(sep, Expected::Byte(')' as u8))
                    }
                },
                Err(f) => Err(f),
            }
        }
    } else {
        fault(pos, Expected::Identifier)
    }
}

/// Recognizes the parameters of a function after its opening parenthesis.
pub fn parse_params<'a>(src: &'a str, pos: usize) -> (r: Result<(Vec<TyIdent<'a>>, usize), Failure>)
    requires
        pos <= src.spec_bytes().len(),
    ensures
        outcome_by(r, |params: Vec<TyIdent<'a>>| ty_idents_view(params@)) == params_rule(
            src.spec_bytes(),
            pos as int,
            Seq::empty(),
        ),
        in_text(r, pos, src.spec_bytes()),
{
    let ghost s = src.spec_bytes();
    let mut params: Vec<TyIdent<'a>> = Vec::new();
    let mut cur = pos;
    assert(ty_idents_view(params@) =~= Seq::empty());
    loop
        invariant
            s == src.spec_bytes(),
            pos <= cur <= s.len(),
            is_edge(s, pos as int) ==> is_edge(s, cur as int),
            params_rule(s, pos as int, Seq::empty()) == params_rule(
                s,
                cur as int,
                ty_idents_view(params@),
            ),
        decreases s.len() - cur,
    {
        let start = scan_class(src, cur, ByteClass::Blank);
        if params.len() == 0 && at(src, start, ')' as u8) {
            return Ok((params, start + 1));
        }
        match parse_ty_ident(src, start) {
            Ok((param, next)) => {
                let sep = scan_class(src, next, ByteClass::Blank);
                let ghost before = ty_idents_view(params@);
                if at(src, sep, ',' as u8) {
                    params.push(param);
                    assert(ty_idents_view(params@) =~= before.push(param@));
                    cur = sep + 1;
                } else if at(src, sep, ')' as u8) {
                    params.push(param);
                    assert(ty_idents_view(params@) =~= before.push(param@));
                    return Ok((params, sep + 1));
                } else {
                    return fail(sep, Expected::Byte(')' as u8));
                }
            },
            Err(failure) => {
                return Err(failure);
            },
        }
    }
}

/// Whether the arrow `->` stands at `pos`.
pub open spec fn has_arrow(s: Text, pos: int) -> bool {
    byte_is(s, pos, '-' as u8) && byte_is(s, pos + 1, '>' as u8)
}

/// What follows the parameters of the function `name`: `->` and a return
/// type, or neither, and the body.
pub open spec fn fn_body_rule(s: Text, pos: int, name: Text, args: Seq<TyIdentView>) -> Parsed<
    FnDeclView,
> {
    let arrow = skip_inline(s, pos);
    if has_arrow(s, arrow) {
        match ident_rule(s, skip_inline(s, arrow + 2)) {
            Ok((ty, end)) => match block_rule(s, skip_inline(s, end)) {
                Ok((body, last)) => Ok((FnDeclView { name, args, ret_ty: Some(ty), body }, last)),
                Err(f) => Err(f),
            },
            Err(f) => Err(f),
        }
    } else {
        match block_rule(s, arrow) {
            Ok((body, last)) => Ok((FnDeclView { name, args, ret_ty: None, body }, last)),
            Err(f) => Err(f),
        }
    }
}

/// A function declaration after its keyword, which ends at `pos`: a name,
/// parameters in parentheses, `->` and a return type or neither, and a
/// block.
pub open spec fn fn_decl_rule(s: Text, pos: int) -> Parsed<FnDeclView> {
    match ident_rule(s, skip_inline(s, pos)) {
        Ok((name, open)) => if byte_is(s, open, '(' as u8) {
            match params_rule(s, open + 1, Seq::empty()) {
                Ok((args, after)) => fn_body_rule(s, after, name, args),
                Err(f) => Err(f),
            }
        } else {
            fault(open, Expected::Byte('(' as u8))
        },
        Err(f) => Err(f),
    }
}

/// Recognizes a function declaration after its keyword.
pub fn parse_fn_decl<'a>(src: &'a str, pos: usize) -> (r: Result<(FnDecl<'a>, usize), Failure>)
    requires
        pos <= src.spec_bytes().len(),
    ensures
        outcome(r) == fn_decl_rule(src.spec_bytes(), pos as int),
        in_text(r, pos, src.spec_bytes()),
{
    let start = scan_class(src, pos, ByteClass::Inline);
    let (name, open) = match parse_ident(src, start) {
        Ok(found) => found,
        Err(failure) => {
            return Err(failure);
        },
    };
    if !at(src, open, '(' as u8) {
        return fail(open, Expected::Byte('(' as u8));
    }
    let (args, after) = match parse_params(src, open + 1) {
        Ok(found) => found,
        Err(failure) => {
            return Err(failure);
        },
    };
    let arrow = scan_class(src, after, ByteClass::Inline);
    if at(src, arrow, '-' as u8) && at(src, arrow + 1, '>' as u8) {
        let ty_start = scan_class(src, arrow + 2, ByteClass::Inline);
        match parse_ty(src, ty_start) {
            Ok((ty, end)) => {
                let body_start = scan_class(src, end, ByteClass::Inline);
                match parse_block(src, body_start) {
                    Ok((body, last)) => Ok((FnDecl { name, args, ret_ty: Some(ty), body }, last)),
                    Err(failure) => Err(failure),
                }
            },
            Err(failure) => Err(failure),
        }
    } else {
        match parse_block(src, arrow) {
            Ok((body, last)) => Ok((FnDecl { name, args, ret_ty: None, body }, last)),
            Err(failure) => Err(failure),
        }
    }
}

/// The fields of a variant after its opening parenthesis, separated by
/// commas: the named ones (`name: type`) and the anonymous ones (`type`),
/// each kind in the order written. `named` and `anonymous` hold those
/// before `pos`.
pub open spec fn fields_rule(
    s: Text,
    pos: int,
    named: Seq<TyIdentView>,
    anonymous: Seq<Text>,
) -> Parsed<(Seq<TyIdentView>, Seq<Text>)>
    decreases s.len() - pos, 1int,
{
    let start = skip_blank(s, pos);
    if 0 <= pos <= s.len() {
        if named.len() == 0 && anonymous.len() == 0 && byte_is(s, start, ')' as u8) {
            Ok(((named, anonymous), start + 1))
        } else {
            match within(s, start, ident_rule(s, start)) {
                Ok((first, next)) => if byte_is(s, skip_inline(s, next), ':' as u8) {
                    match within(
                        s,
                        next,
                        ident_rule(s, skip_inline(s, skip_inline(s, next) + 1)),
                    ) {
                        Ok((ty, end)) => fields_end_rule(
                            s,
                            end,
                            named.push(TyIdentView { ident: first, ty }),
                            anonymous,
                        ),
                        Err(f) => Err(f),
                    }
                } else {
                    fields_end_rule(s, next, named, anonymous.push(first))
                },
                Err(f) => Err(f),
            }
        }
    } else {
        fault(pos, Expected::Identifier)
    }
}

/// What follows a field that ends at `pos`: a comma and more fields, or
/// the closing parenthesis.
pub open spec fn fields_end_rule(
    s: Text,
    pos: int,
    named: Seq<TyIdentView>,
    anonymous: Seq<Text>,
) -> Parsed<(Seq<TyIdentView>, Seq<Text>)>
    decreases s.len() - pos, 0int,
{
    let sep = skip_blank(s, pos);
    if !(0 <= pos <= s.len()) {
        fault(pos, Expected::Identifier)
    } else if byte_is(s, sep, ',' as u8) {
        fields_rule(s, sep + 1, named, anonymous)
    } else if byte_is(s, sep, ')' as u8) {
        Ok(((named, anonymous), sep + 1))
    } else {
        fault(sep, Expected::Byte(')' as u8))
    }
}

/// The fields of a variant, when they are all named or all anonymous.
pub open spec fn uniform(named: Seq<TyIdentView>, anonymous: Seq<Text>) -> Option<FieldsView> {
    if named.len() == 0 {
        Some(FieldsView::Anonymous(anonymous))
    } else if anonymous.len() == 0 {
        Some(FieldsView::Named(named))
    } else {
        None
    }
}

impl<'prgrm> Fields<'prgrm> {
    /// Makes the fields of a variant from its named and its anonymous
    /// fields. A variant that has both has no fields to make.
    pub fn from_parts(named: Vec<TyIdent<'prgrm>>, anonymous: Vec<Ty<'prgrm>>) -> (r: Option<
        Fields<'prgrm>,
    >)
        ensures
            match r {
                Some(fields) => uniform(ty_idents_view(named@), tys_view(anonymous@)) == Some(
                    fields@,
                ),
                None => uniform(ty_idents_view(named@), tys_view(anonymous@)) is None,
            },
            r is None <==> named@.len() > 0 && anonymous@.len() > 0,
    {
        if named.len() == 0 {
            Some(Fields::Anonymous(anonymous))
        } else if anonymous.len() == 0 {
            Some(Fields::Named(named))
        } else {
            None
        }
    }
}

/// Recognizes the fields of a variant after its opening parenthesis, which
/// stands at `open`. Fields of both kinds fail at that parenthesis.
pub fn parse_fields<'a>(src: &'a str, open: usize) -> (r: Result<(Fields<'a>, usize), Failure>)
    requires
        open <= src.spec_bytes().len(),
    ensures
        outcome(r) == fields_in(src.spec_bytes(), open as int),
        in_text(r, open, src.spec_bytes()),
{
    let ghost s = src.spec_bytes();
    if !at(src, open, '(' as u8) {
        return fail(open, Expected::Byte('(' as u8));
    }
    let mut named: Vec<TyIdent<'a>> = Vec::new();
    let mut anonymous: Vec<Ty<'a>> = Vec::new();
    let mut cur = open + 1;
    assert(ty_idents_view(named@) =~= Seq::empty());
    assert(tys_view(anonymous@) =~= Seq::empty());
    let mut end = cur;
    loop
        invariant_except_break
            fields_rule(s, open + 1, Seq::empty(), Seq::empty()) == fields_rule(
                s,
                cur as int,
                ty_idents_view(named@),
                tys_view(anonymous@),
            ),
        invariant
            s == src.spec_bytes(),
            byte_is(s, open as int, '(' as u8),
            open < cur <= s.len() <= usize::MAX,
            is_edge(s, cur as int),
            is_edge(s, open as int),
        ensures
            open < end <= s.len(),
            is_edge(s, end as int),
            fields_rule(s, open + 1, Seq::empty(), Seq::empty()) == Ok::<
                ((Seq<TyIdentView>, Seq<Text>), int),
                crate::error::Fault,
            >(((ty_idents_view(named@), tys_view(anonymous@)), end as int)),
        decreases s.len() - cur,
    {
        let start = scan_class(src, cur, ByteClass::Blank);
        if named.len() == 0 && anonymous.len() == 0 && at(src, start, ')' as u8) {
            end = start + 1;
            break ;
        }
        let (first, next) = match parse_ident(src, start) {
            Ok(found) => found,
            Err(failure) => {
                return Err(failure);
            },
        };
        let colon = scan_class(src, next, ByteClass::Inline);
        let mut field_end = next;
        let ghost named_before = ty_idents_view(named@);
        let ghost anonymous_before = tys_view(anonymous@);
        if at(src, colon, ':' as u8) {
            let ty_start = scan_class(src, colon + 1, ByteClass::Inline);
            match parse_ty(src, ty_start) {
                Ok((ty, end)) => {
                    let field = TyIdent { ident: first, ty };
                    named.push(field);
                    assert(ty_idents_view(named@) =~= named_before.push(field@));
                    field_end = end;
                },
                Err(failure) => {
                    return Err(failure);
                },
            }
        } else {
            let ty = Ty(first.0);
            anonymous.push(ty);
            assert(tys_view(anonymous@) =~= anonymous_before.push(ty@));
        }
        assert(fields_rule(s, open + 1, Seq::empty(), Seq::empty()) == fields_end_rule(
            s,
            field_end as int,
            ty_idents_view(named@),
            tys_view(anonymous@),
        ));
        let sep = scan_class(src, field_end, ByteClass::Blank);
        if at(src, sep, ',' as u8) {
            cur = sep + 1;
        } else if at(src, sep, ')' as u8) {
            end = sep + 1;
            break ;
        } else {
            return fail(sep, Expected::Byte(')' as u8));
        }
    }
    match Fields::from_parts(named, anonymous) {
        Some(fields) => Ok((fields, end)),
        None => fail(open, Expected::UniformFields),
    }
}

/// The fields of a variant, whose opening parenthesis stands at `open`:
/// all named or all anonymous.
pub open spec fn fields_in(s: Text, open: int) -> Parsed<FieldsView> {
    if byte_is(s, open, '(' as u8) {
        match fields_rule(s, open + 1, Seq::empty(), Seq::empty()) {
            Ok(((named, anonymous), end)) => match uniform(named, anonymous) {
                Some(fields) => Ok((fields, end)),
                None => fault(open, Expected::UniformFields),
            },
            Err(f) => Err(f),
        }
    } else {
        fault(open, Expected::Byte('(' as u8))
    }
}

/// A variant of a type: a name or none, and fields in parentheses; or a
/// name alone, which has no fields.
pub open spec fn variant_rule(s: Text, pos: int) -> Parsed<TyVariantView> {
    if byte_is(s, pos, '(' as u8) {
        match fields_in(s, pos) {
            Ok((fields, end)) => Ok((TyVariantView { name: None, fields }, end)),
            Err(f) => Err(f),
        }
    } else {
        match ident_rule(s, pos) {
            Ok((name, next)) => if byte_is(s, next, '(' as u8) {
                match fields_in(s, next) {
                    Ok((fields, end)) => Ok((TyVariantView { name: Some(name), fields }, end)),
                    Err(f) => Err(f),
                }
            } else {
                Ok(
                    (
                        TyVariantView {
                            name: Some(name),
                            fields: FieldsView::Anonymous(Seq::empty()),
                        },
                        next,
                    ),
                )
            },
            Err(f) => Err(f),
        }
    }
}

/// Recognizes a variant of a type at `pos`.
pub fn parse_variant<'a>(src: &'a str, pos: usize) -> (r: Result<(TyVariant<'a>, usize), Failure>)
    requires
        pos <= src.spec_bytes().len(),
    ensures
        outcome(r) == variant_rule(src.spec_bytes(), pos as int),
        in_text(r, pos, src.spec_bytes()),
{
    if at(src, pos, '(' as u8) {
        return match parse_fields(src, pos) {
            Ok((fields, end)) => Ok((TyVariant { name: None, fields }, end)),
            Err(failure) => Err(failure),
        };
    }
    match parse_ident(src, pos) {
        Ok((name, next)) => {
            if at(src, next, '(' as u8) {
                match parse_fields(src, next) {
                    Ok((fields, end)) => Ok((TyVariant { name: Some(name), fields }, end)),
                    Err(failure) => Err(failure),
                }
            } else {
                let none: Vec<Ty<'a>> = Vec::new();
                assert(tys_view(none@) =~= Seq::empty());
                Ok((TyVariant { name: Some(name), fields: Fields::Anonymous(none) }, next))
            }
        },
        Err(failure) => Err(failure),
    }
}

/// The variants of a type from `pos` on, separated by `|`. `done` holds
/// those before `pos`.
pub open spec fn variants_rule(s: Text, pos: int, done: Seq<TyVariantView>) -> Parsed<
    Seq<TyVariantView>,
>
    decreases s.len() - pos,
{
    if 0 <= pos <= s.len() {
        match within(s, pos, variant_rule(s, pos)) {
            Ok((variant, next)) => if byte_is(s, skip_blank(s, next), '|' as u8) {
                variants_rule(s, skip_blank(s, skip_blank(s, next) + 1), done.push(variant))
            } else {
                Ok((done.push(variant), next))
            },
            Err(f) => Err(f),
        }
    } else {
        fault(pos, Expected::Identifier)
    }
}

/// Whether the variants of a type are named as a type needs: one variant
/// with a name or without, or several that each have a name.
pub open spec fn well_named(variants: Seq<TyVariantView>) -> bool {
    variants.len() == 1 || (variants.len() > 1 && forall|k: int|
        0 <= k < variants.len() ==> (#[trigger] variants[k]).name is Some)
}

impl<'prgrm> TyDecl<'prgrm> {
    /// Whether the declaration is named as a type needs.
    pub open spec fn wf(&self) -> bool {
        well_named(self@)
    }

    /// Makes a type declaration of the variants, unless there is none, or
    /// there are several and one of them has no name.
    pub fn new(variants: Vec<TyVariant<'prgrm>>) -> (r: Option<TyDecl<'prgrm>>)
        ensures
            r is Some <==> well_named(variants_view(variants@)),
            r matches Some(decl) ==> decl.0 == variants && decl.wf(),
    {
        let ghost view = variants_view(variants@);
        if variants.len() == 1 {
            return Some(TyDecl(variants));
        }
        if variants.len() == 0 {
            return None;
        }
        let mut k: usize = 0;
        while k < variants.len()
            invariant
                view == variants_view(variants@),
                1 < variants.len(),
                k <= variants.len(),
                forall|j: int| 0 <= j < k ==> (#[trigger] view[j]).name is Some,
            decreases variants.len() - k,
        {
            if variants[k].name.is_none() {
                assert(view[k as int].name is None);
                return None;
            }
            k += 1;
        }
        Some(TyDecl(variants))
    }
}

/// A type declaration after its keyword, which ends at `pos`: one variant
/// or several. Several variants must each have a name.
pub open spec fn ty_decl_rule(s: Text, pos: int) -> Parsed<Seq<TyVariantView>> {
    match variants_rule(s, skip_inline(s, pos), Seq::empty()) {
        Ok((variants, end)) => if well_named(variants) {
            Ok((variants, end))
        } else {
            fault(pos, Expected::VariantName)
        },
        Err(f) => Err(f),
    }
}

/// Recognizes a type declaration after its keyword.
pub fn parse_ty_decl<'a>(src: &'a str, pos: usize) -> (r: Result<(TyDecl<'a>, usize), Failure>)
    requires
        pos <= src.spec_bytes().len(),
    ensures
        outcome(r) == ty_decl_rule(src.spec_bytes(), pos as int),
        r matches Ok((decl, _)) ==> decl.wf(),
        in_text(r, pos, src.spec_bytes()),
{
    let ghost s = src.spec_bytes();
    let first = scan_class(src, pos, ByteClass::Inline);
    let mut variants: Vec<TyVariant<'a>> = Vec::new();
    let mut cur = first;
    assert(variants_view(variants@) =~= Seq::empty());
    let mut end = cur;
    loop
        invariant_except_break
            variants_rule(s, first as int, Seq::empty()) == variants_rule(
                s,
                cur as int,
                variants_view(variants@),
            ),
        invariant
            s == src.spec_bytes(),
            first == skip_inline(s, pos as int),
            pos <= first <= cur <= s.len() <= usize::MAX,
            is_edge(s, pos as int) ==> is_edge(s, cur as int),
        ensures
            pos < end <= s.len(),
            is_edge(s, pos as int) ==> is_edge(s, end as int),
            variants_rule(s, first as int, Seq::empty()) == Ok::<
                (Seq<TyVariantView>, int),
                crate::error::Fault,
            >((variants_view(variants@), end as int)),
        decreases s.len() - cur,
    {
        match parse_variant(src, cur) {
            Ok((variant, next)) => {
                let ghost before = variants_view(variants@);
                variants.push(variant);
                assert(variants_view(variants@) =~= before.push(variant@));
                let bar = scan_class(src, next, ByteClass::Blank);
                if at(src, bar, '|' as u8) {
                    cur = scan_class(src, bar + 1, ByteClass::Blank);
                } else {
                    end = next;
                    break ;
                }
            },
            Err(failure) => {
                return Err(failure);
            },
        }
    }
    match TyDecl::new(variants) {
        Some(decl) => Ok((decl, end)),
        None => fail(pos, Expected::VariantName),
    }
}

/// A `use` after its keyword, which ends at `pos`: a path glob, which is a
/// run of the characters of identifiers, `/` and `.`.
pub open spec fn use_rule(s: Text, pos: int) -> Parsed<Text> {
    let start = skip_inline(s, pos);
    let end = skip(s, start, ByteClass::PathChar);
    if end > start {
        Ok((s.subrange(start, end), end))
    } else {
        fault(start, Expected::PathGlob)
    }
}

/// Recognizes a `use` after its keyword.
pub fn parse_use<'a>(src: &'a str, pos: usize) -> (r: Result<(PathGlob<'a>, usize), Failure>)
    requires
        pos <= src.spec_bytes().len(),
    ensures
        outcome(r) == use_rule(src.spec_bytes(), pos as int),
        in_text(r, pos, src.spec_bytes()),
{
    let start = scan_class(src, pos, ByteClass::Inline);
    let end = scan_class(src, start, ByteClass::PathChar);
    if end > start {
        proof {
            lemma_scan(src.spec_bytes(), start as int, ByteClass::PathChar);
            assert(ByteClass::PathChar.has(src.spec_bytes()[start as int]));
            assert(ByteClass::PathChar.has(src.spec_bytes()[end - 1]));
        }
        Ok((PathGlob(slice(src, start, end)), end))
    } else {
        fail(start, Expected::PathGlob)
    }
}

/// A top-level statement: a comment, a `use`, a function or a type.
pub open spec fn top_rule(s: Text, pos: int) -> Parsed<TopStmtView> {
    if has_marker(s, pos) {
        match comment_rule(s, pos) {
            Ok((comment, next)) => Ok((TopStmtView::Comment(comment), next)),
            Err(f) => Err(f),
        }
    } else if keyword_at(s, pos) == Some(Keyword::Use) {
        match use_rule(s, word_end(s, pos)) {
            Ok((glob, next)) => Ok((TopStmtView::Use(glob), next)),
            Err(f) => Err(f),
        }
    } else if keyword_at(s, pos) == Some(Keyword::Fn) {
        match fn_decl_rule(s, word_end(s, pos)) {
            Ok((decl, next)) => Ok((TopStmtView::FnDecl(decl), next)),
            Err(f) => Err(f),
        }
    } else if word_is(s, pos, "type".spec_bytes()) {
        match ty_decl_rule(s, word_end(s, pos)) {
            Ok((decl, next)) => Ok((TopStmtView::TyDecl(decl), next)),
            Err(f) => Err(f),
        }
    } else {
        fault(pos, Expected::Declaration)
    }
}

/// Recognizes a top-level statement at `pos`.
pub fn parse_top<'a>(src: &'a str, pos: usize) -> (r: Result<(TopStmt<'a>, usize), Failure>)
    requires
        pos <= src.spec_bytes().len(),
    ensures
        outcome(r) == top_rule(src.spec_bytes(), pos as int),
        r matches Ok((TopStmt::TyDecl(decl), _)) ==> decl.wf(),
        in_text(r, pos, src.spec_bytes()),
{
    if at(src, pos, '/' as u8) && at(src, pos + 1, '/' as u8) {
        return match parse_comment(src, pos) {
            Ok((comment, next)) => Ok((TopStmt::Comment(comment), next)),
            Err(failure) => Err(failure),
        };
    }
    let end = scan_word(src, pos);
    let keyword = lex_keyword(src, pos, end);
    proof {
        lemma_word_end(src.spec_bytes(), pos as int);
    }
    if keyword == Some(Keyword::Use) {
        match parse_use(src, end) {
            Ok((glob, next)) => Ok((TopStmt::Use(glob), next)),
            Err(failure) => Err(failure),
        }
    } else if keyword == Some(Keyword::Fn) {
        match parse_fn_decl(src, end) {
            Ok((decl, next)) => Ok((TopStmt::FnDecl(decl), next)),
            Err(failure) => Err(failure),
        }
    } else if word_eq(src, pos, end, "type") {
        match parse_ty_decl(src, end) {
            Ok((decl, next)) => Ok((TopStmt::TyDecl(decl), next)),
            Err(failure) => Err(failure),
        }
    } else {
        fail(pos, Expected::Declaration)
    }
}

} // verus!
