//! Front end of the Tin compiler: source text in, high-level representation out.
//!
//! The crate parses one in-memory buffer into a tree of nodes that borrow
//! their text from that buffer. Every grammar rule is written twice: once as
//! a specification over the bytes of the buffer, and once as executable code
//! proved to compute exactly what the specification says.
//!
//! # The language
//!
//! ```text
//! program   := { top }                          exactly one `fn main`
//! top       := comment | `use` glob | `fn` fn-decl | `type` ty-decl
//! fn-decl   := ident `(` [ param { `,` param } ] `)` [ `->` type ] block
//! param     := ident `:` type
//! ty-decl   := variant { `|` variant }          several variants all have names
//! variant   := [ ident ] `(` [ field { `,` field } ] `)` | ident
//! field     := ident `:` type | type            all of one kind in a variant
//! block     := `{` { stmt } `}`                 one statement to a line
//! stmt      := comment | ident [ `:` type ] `=` expr | expr [ assign-op expr ]
//! expr      := operand { binary-op operand }    by precedence, see below
//! operand   := { `not` | `-` | `@` } primary { `.` ident [ args ] }
//! primary   := `(` expr `)` | ident [ args ] | literal
//!            | (`if` | `unless`) expr block [ `else` (block | `if` .. | `unless` ..) ]
//!            | `loop` block | (`while` | `until`) expr block
//!            | `for` expr `in` expr block
//!            | `continue` [ label ] | `break` [ expr ] [ label ] | `return` [ expr ]
//! args      := `(` [ expr { `,` expr } ] `)`
//! literal   := ident | `true` | `false` | number | string | `b` string
//!            | `'` char `'` | `:` word
//!            | `#[` literals `]` | `#(` literals `)` | `#{` [ word `:` expr { `,` .. } ] `}`
//! comment   := `//` line { line-break `//` line }
//! ```
//!
//! Binary operators, from the tightest: `^` (groups from the right), then
//! `* / %`, `+ -`, the comparisons `> < >= <= == !=`, `and xor`, and `or`
//! (all group from the left). The prefix operators bind tighter than any of
//! them, and field access binds tighter still. Every operator is kept as a
//! call of the function that is named as the operator is written.
//!
//! An identifier is a letter followed by letters, digits and any of
//! `- _ + > < *`, so an operator between two names needs white space around
//! it. Strings have no escapes and end on their line.
//!
//! # Failures
//!
//! A parse stops at the first position where the grammar cannot go on, and
//! reports that position and what it needed there. Callers tell failures
//! apart by their kind, [`Error`]; the position and the trace rendered from
//! it are for people.

pub mod decl;
pub mod error;
pub mod glob;
pub mod grammar;
pub mod hir;
pub mod laws;
pub mod lexical;
pub mod parser;
pub mod program;
pub mod progress;
pub mod text;
pub mod token;
pub mod trace;
pub mod view;
pub mod words;

pub use crate::error::{Error, Expected, Failure, Place};
pub use crate::hir::{
    Array, Block, Bool, BStr, Char, Comment, Expr, Fields, Float, FnCall, FnDecl, Ident, Int,
    Literal, MapLit, Path, PathGlob, Program, Stmt, Symbol, TopStmt, Tuple, Ty, TyDecl, TyIdent,
    TyVariant, UStr, VarAssign,
};
pub use crate::program::{parse, parse_with_errors};
pub use crate::token::{next_token, Token};
pub use crate::trace::{handle_error, trace};
pub use crate::words::{Keyword, Operator};
