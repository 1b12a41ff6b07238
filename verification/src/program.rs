//! Program assembly: the top-level statements of a text, and the check that
//! makes them a complete program.

use crate::decl::{parse_top, top_rule, well_named};
use crate::error::{Error, Expected, Failure, Fault};
use crate::grammar::within;
use crate::hir::{Program, Text, TopStmt};
use crate::lexical::has_marker;
use crate::text::{
    bytes_eq, is_edge, lemma_cut_is_edge, lemma_edge_is_boundary, lemma_source_is_utf8,
    scan_class, skip_blank, skip_inline, ByteClass,
};
use vstd::utf8::{is_char_boundary, valid_utf8};
use crate::view::TopStmtView;
use vstd::prelude::*;
use vstd::string::StringSliceAdditionalSpecFns;

verus! {

/// Whether a top-level statement may end at `pos`: at the end of the text
/// or of the line, or before a comment.
pub open spec fn ends_top(s: Text, pos: int) -> bool {
    pos >= s.len() || s[pos] == '\n' as u8 || has_marker(s, pos)
}

/// The top-level statements from `pos` to the end of the text. `done` holds
/// those before `pos`.
pub open spec fn tops_rule(s: Text, pos: int, done: Seq<TopStmtView>) -> Result<
    Seq<TopStmtView>,
    Fault,
>
    decreases s.len() - pos,
{
    let start = skip_blank(s, pos);
    if start >= s.len() || !(0 <= pos <= s.len()) {
        Ok(done)
    } else {
        match within(s, start, top_rule(s, start)) {
            Ok((item, next)) => if ends_top(s, skip_inline(s, next)) {
                tops_rule(s, skip_inline(s, next), done.push(item))
            } else {
                Err(Fault { at: skip_inline(s, next), expected: Expected::LineEnd })
            },
            Err(f) => Err(f),
        }
    }
}

/// Whether a top-level statement declares the function `main`.
pub open spec fn is_main(top: TopStmtView) -> bool {
    top matches TopStmtView::FnDecl(decl) && decl.name == "main".spec_bytes()
}

/// The number of declarations of the function `main` among the statements.
pub open spec fn mains(tops: Seq<TopStmtView>) -> nat
    decreases tops.len(),
{
    if tops.len() == 0 {
        0
    } else if is_main(tops.last()) {
        mains(tops.drop_last()) + 1
    } else {
        mains(tops.drop_last())
    }
}

/// A program: the top-level statements of the whole text, of which exactly
/// one declares the function `main`. A text without it, or with several,
/// fails at its end.
pub open spec fn program_rule(s: Text) -> Result<Seq<TopStmtView>, Fault> {
    match tops_rule(s, 0, Seq::empty()) {
        Ok(tops) => if mains(tops) == 1 {
            Ok(tops)
        } else {
            Err(Fault { at: s.len() as int, expected: Expected::Main })
        },
        Err(f) => Err(f),
    }
}

/// Whether each type among the statements is named as a type needs.
pub open spec fn types_well_named(tops: Seq<TopStmtView>) -> bool {
    forall|k: int|
        0 <= k < tops.len() ==> (#[trigger] tops[k] matches TopStmtView::TyDecl(variants)
            ==> well_named(variants))
}

/// The top-level statements of a text keep the types well named.
proof fn lemma_tops_well_named(s: Text, pos: int, done: Seq<TopStmtView>)
    requires
        types_well_named(done),
    ensures
        tops_rule(s, pos, done) matches Ok(tops) ==> types_well_named(tops),
    decreases s.len() - pos,
{
    let start = skip_blank(s, pos);
    if start >= s.len() || !(0 <= pos <= s.len()) {
    } else {
        match within(s, start, top_rule(s, start)) {
            Ok((item, next)) => {
                let more = done.push(item);
                assert forall|k: int| 0 <= k < more.len() implies (#[trigger] more[k] matches TopStmtView::TyDecl(
                    variants,
                ) ==> well_named(variants)) by {
                    if k < done.len() {
                        assert(more[k] == done[k]);
                    }
                }
                if ends_top(s, skip_inline(s, next)) {
                    lemma_tops_well_named(s, skip_inline(s, next), more);
                }
            },
            Err(_) => {},
        }
    }
}

/// A text that parses is a complete program: it declares the function
/// `main` exactly once, and each of its types is named as a type needs.
pub proof fn law_programs_are_complete(s: Text)
    ensures
        program_rule(s) matches Ok(tops) ==> mains(tops) == 1 && types_well_named(tops),
{
    lemma_tops_well_named(s, 0, Seq::empty());
}

impl<'prgrm> Program<'prgrm> {
    /// Whether the program is complete: it declares the function `main`
    /// exactly once, and each of its types is named as a type needs.
    pub open spec fn wf(&self) -> bool {
        mains(self@) == 1 && types_well_named(self@)
    }

    /// Construct an empty program.
    pub fn empty() -> (r: Program<'prgrm>)
        ensures
            r@ == Seq::<TopStmtView>::empty(),
    {
        let r = Program(Vec::new());
        assert(r@ =~= Seq::empty());
        r
    }

    /// Add a new statement to the program.
    pub fn add_statement(&mut self, stmt: TopStmt<'prgrm>) -> (r: &mut Self)
        ensures
            r@ == old(self)@.push(stmt@),
            r.0@ == old(self).0@.push(stmt),
            *final(self) == *final(r),
    {
        self.0.push(stmt);
        assert(self@ =~= old(self)@.push(stmt@));
        self
    }

    /// View the existing statements.
    pub fn statements(&self) -> (r: &[TopStmt<'prgrm>])
        ensures
            r@ == self.0@,
    {
        self.0.as_slice()
    }

    /// Mutably view the existing statements.
    pub fn statements_mut(&mut self) -> (r: &mut [TopStmt<'prgrm>])
        ensures
            r@ == old(self).0@,
            final(r)@ == final(self).0@,
    {
        self.0.as_mut_slice()
    }

    /// Counts the declarations of the function `main`.
    pub fn count_main(&self) -> (r: usize)
        ensures
            r == mains(self@),
    {
        let ghost tops = self@;
        let mut count: usize = 0;
        let mut k: usize = 0;
        assert(tops.subrange(0, 0) =~= Seq::empty());
        while k < self.0.len()
            invariant
                tops == self@,
                tops.len() == self.0@.len(),
                k <= self.0@.len(),
                count == mains(tops.subrange(0, k as int)),
                count <= k,
            decreases self.0@.len() - k,
        {
            assert(tops.subrange(0, k + 1).drop_last() =~= tops.subrange(0, k as int));
            assert(tops.subrange(0, k + 1).last() == self.0@[k as int]@);
            match &self.0[k] {
                TopStmt::FnDecl(decl) => {
                    if bytes_eq(decl.name.0.as_bytes(), "main".as_bytes()) {
                        count += 1;
                    }
                },
                _ => {},
            }
            k += 1;
        }
        assert(tops.subrange(0, k as int) =~= tops);
        count
    }

    /// Whether the program declares the function `main` exactly once.
    pub fn is_complete(&self) -> (r: bool)
        ensures
            r == (mains(self@) == 1),
    {
        self.count_main() == 1
    }
}

/// Parse the input into a complete program, or report where the parse gave
/// up and what it needed there.
pub fn parse_with_errors<'a>(src: &'a str) -> (r: Result<Program<'a>, Failure>)
    ensures
        match r {
            Ok(program) => program_rule(src.spec_bytes()) == Ok::<Seq<TopStmtView>, Fault>(
                program@,
            ) && program.wf(),
            Err(failure) => program_rule(src.spec_bytes()) == Err::<Seq<TopStmtView>, Fault>(
                failure@,
            ) && failure.offset <= src.spec_bytes().len() && is_char_boundary(
                src.spec_bytes(),
                failure.offset as int,
            ),
        },
{
    let ghost s = src.spec_bytes();
    proof {
        law_programs_are_complete(s);
        lemma_source_is_utf8(src);
        lemma_cut_is_edge(s, 0);
    }
    let mut program = Program::empty();
    let mut cur: usize = 0;
    loop
        invariant_except_break
            tops_rule(s, 0, Seq::empty()) == tops_rule(s, cur as int, program@),
        invariant
            s == src.spec_bytes(),
            cur <= s.len(),
            is_edge(s, cur as int),
            valid_utf8(s),
        ensures
            tops_rule(s, 0, Seq::empty()) == Ok::<Seq<TopStmtView>, Fault>(program@),
            s.len() <= usize::MAX,
        decreases s.len() - cur,
    {
        let start = scan_class(src, cur, ByteClass::Blank);
        if start >= src.as_bytes().len() {
            break ;
        }
        match parse_top(src, start) {
            Ok((item, next)) => {
                let end = scan_class(src, next, ByteClass::Inline);
                let bytes = src.as_bytes();
                if end < bytes.len() && bytes[end] != '\n' as u8 && !(bytes[end] == '/' as u8 && end
                    + 1 < bytes.len() && bytes[end + 1] == '/' as u8) {
                    proof {
                        lemma_edge_is_boundary(s, end as int);
                    }
                    return Err(Failure { offset: end, expected: Expected::LineEnd });
                }
                let ghost before = program@;
                program.0.push(item);
                assert(program@ =~= before.push(item@));
                cur = end;
            },
            Err(failure) => {
                proof {
                    lemma_edge_is_boundary(s, failure.offset as int);
                }
                return Err(failure);
            },
        }
    }
    if program.is_complete() {
        Ok(program)
    } else {
        proof {
            lemma_source_is_utf8(src);
            lemma_edge_is_boundary(s, s.len() as int);
        }
        Err(Failure { offset: src.as_bytes().len(), expected: Expected::Main })
    }
}

/// Parse the input into a complete program, or report that parsing failed.
pub fn parse<'a>(src: &'a str) -> (r: Result<Program<'a>, Error>)
    ensures
        match r {
            Ok(program) => program_rule(src.spec_bytes()) == Ok::<Seq<TopStmtView>, Fault>(
                program@,
            ) && program.wf(),
            Err(error) => error == Error::ParseFailed && program_rule(src.spec_bytes()) is Err,
        },
{
    match parse_with_errors(src) {
        Ok(program) => Ok(program),
        Err(_) => Err(Error::ParseFailed),
    }
}

} // verus!
