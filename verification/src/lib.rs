use vstd::prelude::*;

pub mod arg;
pub mod error;
pub mod input;
pub mod make;
pub mod render;
pub mod token;

use crate::arg::{arg_outcome, Arg};
use crate::error::ParseError;
use crate::input::{interface_outcome, lemma_outcome_none_iff_valid, Input};
use crate::make::{emit_spec, make};
use crate::token::{view_tokens, Span, Tok, Token};

verus! {

/// What one invocation yields. The argument stream is validated first, then
/// the interface stream; the first failure becomes the one diagnostic and
/// nothing is emitted. On success the output is a function of the two
/// validated models alone.
pub open spec fn injectable_spec(
    a: Seq<Tok>,
    arg_span: Span,
    s: Seq<Tok>,
    input_span: Span,
) -> Result<Seq<Tok>, ParseError> {
    match arg_outcome(a, arg_span) {
        Result::Err(e) => Result::Err(e),
        Result::Ok((name, nspan)) => match interface_outcome(s, input_span) {
            Option::Some(e) => Result::Err(e),
            Option::None => Result::Ok(emit_spec(s, name, nspan)),
        },
    }
}

/// One invocation: parses and validates the argument stream, then the
/// interface stream, and emits the implementation block on success. The two
/// stream spans anchor the diagnostics that have no token to point at.
pub fn injectable(
    arg_tokens: &Vec<Token>,
    arg_span: Span,
    input_tokens: Vec<Token>,
    input_span: Span,
) -> (r: Result<Vec<Token>, ParseError>)
    ensures
        match r {
            Result::Ok(out) => injectable_spec(
                view_tokens(arg_tokens@),
                arg_span,
                view_tokens(input_tokens@),
                input_span,
            ) == Result::<Seq<Tok>, ParseError>::Ok(view_tokens(out@)),
            Result::Err(e) => injectable_spec(
                view_tokens(arg_tokens@),
                arg_span,
                view_tokens(input_tokens@),
                input_span,
            ) == Result::<Seq<Tok>, ParseError>::Err(e),
        },
{
    let arg = match Arg::parse(arg_tokens, arg_span) {
        Result::Ok(a) => a,
        Result::Err(e) => {
            return Result::Err(e);
        },
    };
    let input = match Input::parse(input_tokens, input_span) {
        Result::Ok(i) => i,
        Result::Err(e) => {
            return Result::Err(e);
        },
    };
    proof {
        lemma_outcome_none_iff_valid(input.raw_view(), input_span);
    }
    Result::Ok(make(&input, &arg))
}

} // verus!
