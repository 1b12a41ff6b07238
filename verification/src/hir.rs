//! High-level representation of the source code.
//!
//! The HIR for Tin is an abstract syntax tree which is constructed directly
//! by parsing the source code input. Every node borrows its text from the
//! buffer that was parsed, so the buffer outlives the tree.
//!
//! Each node type has a specification value, its view: the same tree with the
//! borrowed slices replaced by the bytes they hold.

use vstd::prelude::*;
use vstd::string::StringExecFns;
use std::borrow::Cow;

verus! {

/// The bytes of a piece of source text.
pub type Text = Seq<u8>;

/// An identifier.
#[derive(Debug, Clone, Copy)]
pub struct Ident<'prgrm>(pub &'prgrm str);

/// A type.
#[derive(Debug, Clone, Copy)]
pub struct Ty<'prgrm>(pub &'prgrm str);

/// An interned string used as keys in hashmaps or other
/// places where string identity is important. Holds the text after the colon.
#[derive(Debug, Clone, Copy)]
pub struct Symbol<'prgrm>(pub &'prgrm str);

/// A UTF-8 encoded string. Holds the text between the quotes.
#[derive(Debug, Clone, Copy)]
pub struct UStr<'prgrm>(pub &'prgrm str);

/// A boolean value, with the text it was written as.
#[derive(Debug, Clone, Copy)]
pub struct Bool<'prgrm>(pub bool, pub &'prgrm str);

/// A 64-bit signed integer, with the text it was written as.
#[derive(Debug, Clone, Copy)]
pub struct Int<'prgrm>(pub i64, pub &'prgrm str);

/// A 64-bit floating point number, kept as the text it was written as.
#[derive(Debug, Clone, Copy)]
pub struct Float<'prgrm>(pub &'prgrm str);

/// A byte-vector built from ASCII text: the bytes between the quotes, and the
/// whole literal as written.
#[derive(Debug, Clone, Copy)]
pub struct BStr<'prgrm>(pub &'prgrm [u8], pub &'prgrm str);

/// A UTF-8 code-point (32-bits), with the whole literal as written.
#[derive(Debug, Clone, Copy)]
pub struct Char<'prgrm>(pub char, pub &'prgrm str);

/// A glob specifier for a path.
///
/// This may resolve into multiple paths.
#[derive(Debug, Clone, Copy)]
pub struct PathGlob<'prgrm>(pub &'prgrm str);

/// A single path to an external module.
///
/// Path contains a `Cow` to avoid allocating in cases where no globs are used.
#[derive(Debug)]
pub struct Path<'prgrm>(pub Cow<'prgrm, str>);

/// A homogeneous container of values.
#[derive(Debug)]
pub struct Array<'prgrm>(pub Vec<Literal<'prgrm>>);

/// A heterogeneous container of values.
#[derive(Debug)]
pub struct Tuple<'prgrm>(pub Vec<Literal<'prgrm>>);

/// A table of symbols to expressions, in the order written. A key may occur
/// more than once: rejecting that is left to a later pass.
#[derive(Debug)]
pub struct MapLit<'prgrm>(pub Vec<(Symbol<'prgrm>, Box<Expr<'prgrm>>)>);

/// A literal value.
#[derive(Debug)]
pub enum Literal<'prgrm> {
    /// An identifier (e.g. `some-name`)
    Ident(Ident<'prgrm>),
    /// A boolean value (e.g. `true` or `false`)
    Bool(Bool<'prgrm>),
    /// A 64-bit integer (e.g. `645`)
    Int(Int<'prgrm>),
    /// A 64-bit, double-precision floating point number (e.g. `5.36`)
    Float(Float<'prgrm>),
    /// A UTF-8 encoded string (e.g. `"hello"`)
    UStr(UStr<'prgrm>),
    /// An array of ASCII characters converted into bytes (e.g. `b"hello"`)
    BStr(BStr<'prgrm>),
    /// A UTF-8 code point (32-bits) (e.g. `'c'`)
    Char(Char<'prgrm>),
    /// An interned string value (e.g. `:hello`)
    Symbol(Symbol<'prgrm>),
    /// A sequence of contiguously-stored values of the same type (e.g. `#[1, 2, 3]`)
    Array(Array<'prgrm>),
    /// A sequence of values which may not be contiguously stored, and may have different
    /// types (e.g. `#(1, 'a', b"hello")`)
    Tuple(Tuple<'prgrm>),
    /// A table of symbols to values. (e.g. `#{ x: 2 + 3, y: -1 }`)
    MapLit(MapLit<'prgrm>),
}

/// An expression.
///
/// Unlike statements, expressions _have_ R-values.
#[derive(Debug)]
pub enum Expr<'prgrm> {
    /// An `if` (optionally with an `else`)
    If(Box<Expr<'prgrm>>, Block<'prgrm>, Option<Block<'prgrm>>),
    /// An `unless` (optionally with an `else`)
    Unless(Box<Expr<'prgrm>>, Block<'prgrm>, Option<Block<'prgrm>>),
    /// An unconditional loop
    Loop(Block<'prgrm>),
    /// A `while` loop
    While(Box<Expr<'prgrm>>, Block<'prgrm>),
    /// An `until` loop
    Until(Box<Expr<'prgrm>>, Block<'prgrm>),
    /// A `for x in y` loop.
    For(Box<Expr<'prgrm>>, Box<Expr<'prgrm>>, Block<'prgrm>),
    /// A continue, jumping to the next iteration of the loop with the given
    /// label. An empty label means the innermost enclosing loop.
    Continue(&'prgrm str),
    /// A break, ending the loop with the given label, optionally with a
    /// value. An empty label means the innermost enclosing loop.
    Break(Option<Box<Expr<'prgrm>>>, &'prgrm str),
    /// A function call.
    ///
    /// Function calls are also how operators are represented.
    FnCall(FnCall<'prgrm>),
    /// An identifier.
    Ident(Ident<'prgrm>),
    /// A field access.
    Dot(Box<Expr<'prgrm>>, Box<Expr<'prgrm>>),
    /// A literal value other than a bare identifier.
    Literal(Literal<'prgrm>),
}

/// A function call.
#[derive(Debug)]
pub struct FnCall<'prgrm> {
    /// The name of the function being called.
    pub name: Ident<'prgrm>,
    /// The actual args being passed.
    pub args: Vec<Box<Expr<'prgrm>>>,
}

/// A block of statements.
#[derive(Debug)]
pub struct Block<'prgrm>(pub Vec<Stmt<'prgrm>>);

/// A statement.
///
/// Statements have no R-value. Generally expect them to be on their
/// own line.
#[derive(Debug)]
pub enum Stmt<'prgrm> {
    /// A comment is a statement.
    Comment(Comment<'prgrm>),
    /// Assigning, may be declaring a new variable.
    VarAssign(VarAssign<'prgrm>),
    /// An expression.
    ///
    /// Expressions may be treated as statements, implicitly throwing
    /// away the R-value.
    Expr(Box<Expr<'prgrm>>),
}

/// A variable assignment.
///
/// If the variable identifier hasn't been declared in scope before,
/// this is treated as declaring a new variable.
#[derive(Debug)]
pub struct VarAssign<'prgrm> {
    /// The name of the variable being declared.
    pub name: Ident<'prgrm>,
    /// Optionally, a typing annotation.
    pub ty: Option<Ty<'prgrm>>,
    /// The RHS of the assignment, used to produce the value.
    pub rhs: Box<Expr<'prgrm>>,
}

/// A comment block.
///
/// Comments may be a reference to a string in the program (if single-line)
#[derive(Debug)]
pub enum Comment<'prgrm> {
    /// If a single line, a comment is a slice to the line.
    SingleLine(&'prgrm str),
    /// If multi-line, a comment is a collection of slices to each line.
    MultiLine(Vec<&'prgrm str>),
}

/// The characters of the lines, one after the other.
pub open spec fn joined(lines: Seq<&str>) -> Seq<char>
    decreases lines.len(),
{
    if lines.len() == 0 {
        Seq::empty()
    } else {
        joined(lines.drop_last()) + lines.last()@
    }
}

impl<'prgrm> Comment<'prgrm> {
    /// The characters that the comment is shown as: its line, or its lines
    /// one after the other.
    pub open spec fn rendered(&self) -> Seq<char> {
        match self {
            Comment::SingleLine(line) => line@,
            Comment::MultiLine(lines) => joined(lines@),
        }
    }

    /// The comment as text: its line or, if multi-line, all its lines.
    pub fn render(&self) -> (r: String)
        ensures
            r@ == self.rendered(),
    {
        match self {
            Comment::SingleLine(line) => String::from_str(line),
            Comment::MultiLine(lines) => {
                let mut out = String::new();
                let mut k: usize = 0;
                assert(lines@.subrange(0, 0) =~= Seq::empty());
                while k < lines.len()
                    invariant
                        k <= lines@.len(),
                        out@ == joined(lines@.subrange(0, k as int)),
                    decreases lines@.len() - k,
                {
                    assert(lines@.subrange(0, k + 1).drop_last() =~= lines@.subrange(0, k as int));
                    out.append(lines[k]);
                    k += 1;
                }
                assert(lines@.subrange(0, k as int) =~= lines@);
                out
            },
        }
    }
}

/// A combination of an identifier with a type.
///
/// This is generally used to express the assign of type to a variable
/// or field.
#[derive(Debug, Clone, Copy)]
pub struct TyIdent<'prgrm> {
    /// The identifier having a type assigned.
    pub ident: Ident<'prgrm>,
    /// The type being assigned.
    pub ty: Ty<'prgrm>,
}

/// The fields of a type variant.
///
/// Can either be named, in which case they include both the name
/// and the type, or anonymous, in which case they include only the
/// type.
#[derive(Debug)]
pub enum Fields<'prgrm> {
    /// All fields are named.
    Named(Vec<TyIdent<'prgrm>>),
    /// All fields are anonymous.
    Anonymous(Vec<Ty<'prgrm>>),
}

/// A single variant of a type.
///
/// A type variant may have a name. If only variant is present,
/// then the name is optional. If there are multiple variants,
/// they all must have names.
#[derive(Debug)]
pub struct TyVariant<'prgrm> {
    /// The name of the type.
    pub name: Option<Ident<'prgrm>>,
    /// The fields of the type.
    pub fields: Fields<'prgrm>,
}

/// A type declaration.
///
/// Sum and product types are declared uniformly in Tin.
/// A type can have any number of variants, and each variant
/// can have a set of either named or unnamed fields.
#[derive(Debug)]
pub struct TyDecl<'prgrm>(pub Vec<TyVariant<'prgrm>>);

/// A function declaration.
#[derive(Debug)]
pub struct FnDecl<'prgrm> {
    /// The name of the new function.
    pub name: Ident<'prgrm>,
    /// The arguments to the function.
    pub args: Vec<TyIdent<'prgrm>>,
    /// (Optionally) the function return type.
    pub ret_ty: Option<Ty<'prgrm>>,
    /// The body of the function.
    pub body: Block<'prgrm>,
}

/// A top-level statement.
///
/// A few types of statements are allowed at the top of the
/// program, including comments, use-statements, and function
/// declarations.
#[derive(Debug)]
pub enum TopStmt<'prgrm> {
    /// A comment block.
    Comment(Comment<'prgrm>),
    /// A single use statement (may be expanded by glob resolution).
    Use(PathGlob<'prgrm>),
    /// A function declaration.
    FnDecl(FnDecl<'prgrm>),
    /// A type declaration.
    TyDecl(TyDecl<'prgrm>),
}

/// A complete parsed program.
///
/// A complete program is a collection of top-level statements
/// with the one requirement being the presence of a `main` function
/// declaration.
#[derive(Debug)]
pub struct Program<'prgrm>(pub Vec<TopStmt<'prgrm>>);

} // verus!
