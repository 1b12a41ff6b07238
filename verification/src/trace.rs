//! The error reporter: a human-readable trace of where a parse gave up.
//!
//! The trace is for people to read. Callers tell failures apart by their
//! kind alone, never by the text of a trace.

use crate::error::{Error, Failure};
use nom::error::{convert_error, VerboseError, VerboseErrorKind};
use vstd::prelude::*;
use vstd::string::StringSliceAdditionalSpecFns;
use vstd::utf8::is_char_boundary;

verus! {

/// The trace that `nom::error::convert_error` renders for a text, the
/// offset of a failure in it, and a description of what was being read.
pub uninterp spec fn trace_text(text: Seq<char>, offset: int, context: Seq<char>) -> Seq<char>;

/// Renders a trace with `nom::error::convert_error`, which is handed the
/// text and one error: the rest of the text from `offset`, in `context`. It
/// shows the number of the line that holds the offset, that line, and a
/// caret under the column. Nothing of this is proved here: the contract
/// only names the result, which depends on the three arguments alone. The
/// offset must lie on a character boundary, where the text can be cut.
#[verifier::external_body]
fn render_trace(src: &str, offset: usize, context: &'static str) -> (r: String)
    requires
        is_char_boundary(src.spec_bytes(), offset as int),
    ensures
        r@ == trace_text(src@, offset as int, context@),
{
    let (_, rest) = src.split_at(offset);
    convert_error(src, VerboseError { errors: vec![(rest, VerboseErrorKind::Context(context))] })
}

/// The trace of a failure in `src`, for people to read. There is none where
/// the failure does not lie on a character boundary of `src`.
pub fn trace(src: &str, failure: &Failure) -> (r: Option<String>)
    ensures
        r is Some <==> is_char_boundary(src.spec_bytes(), failure.offset as int),
        r matches Some(text) ==> text@ == trace_text(
            src@,
            failure.offset as int,
            failure.expected.described(),
        ),
{
    if src.is_char_boundary(failure.offset) {
        Some(render_trace(src, failure.offset, failure.expected.describe()))
    } else {
        None
    }
}

/// Classifies a failure of parsing `src`, and renders its trace. The kind
/// is always `ParseFailed`; the trace is best-effort.
pub fn handle_error(src: &str, failure: &Failure) -> (r: (Error, Option<String>))
    ensures
        r.0 == Error::ParseFailed,
        r.1 is Some <==> is_char_boundary(src.spec_bytes(), failure.offset as int),
        r.1 matches Some(text) ==> text@ == trace_text(
            src@,
            failure.offset as int,
            failure.expected.described(),
        ),
{
    (Error::ParseFailed, trace(src, failure))
}

} // verus!
