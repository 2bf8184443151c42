use crate::error::{ParseError, ParseErrorKind};
use crate::token::{lemma_view_tokens_index, lemma_view_tokens_len, spec_join_span, view_tokens,
    Span, Token};
use vstd::prelude::*;

verus! {

/// The validated target of an invocation: exactly one identifier, naming the
/// type that the generated implementation block is written for.
#[derive(Debug, PartialEq, Eq)]
pub struct Arg {
    name: String,
    span: Span,
}

/// What parsing an argument stream yields, by the rules in order:
/// an empty stream is missing its argument (range: the whole stream); a
/// stream whose first token is no identifier names no target (range: that
/// token); a stream with tokens after the identifier has too many arguments
/// (range: the trailing tokens); otherwise the identifier is the target.
pub open spec fn arg_outcome(s: Seq<crate::token::Tok>, whole: Span) -> Result<
    (Seq<char>, Span),
    ParseError,
> {
    if s.len() == 0 {
        Err(ParseError { kind: ParseErrorKind::MissingArgument, span: whole })
    } else if !(s[0] is Ident) {
        Err(ParseError { kind: ParseErrorKind::ArgumentNotIdentifier, span: s[0].span() })
    } else if s.len() > 1 {
        Err(
            ParseError {
                kind: ParseErrorKind::TooManyArguments,
                span: spec_join_span(s.subrange(1, s.len() as int)),
            },
        )
    } else {
        Ok((s[0].ident_text(), s[0].span()))
    }
}

impl Arg {
    /// Wraps an already validated target identifier.
    pub fn new(name: String, span: Span) -> (a: Arg)
        ensures
            a.name_view() == name@,
            a.span_view() == span,
    {
        Arg { name, span }
    }

    /// The target identifier, read-only.
    pub fn get_name(&self) -> (r: &String)
        ensures
            r@ == self.name_view(),
    {
        &self.name
    }

    /// The source range of the target identifier.
    pub fn get_span(&self) -> (r: Span)
        ensures
            r == self.span_view(),
    {
        self.span
    }

    /// The text of the target identifier, at the specification level.
    pub closed spec fn name_view(&self) -> Seq<char> {
        self.name@
    }

    /// The source range of the target identifier, at the specification level.
    pub closed spec fn span_view(&self) -> Span {
        self.span
    }

    /// Parses and validates the argument stream. `stream_span` is the range
    /// of the whole stream, the anchor when the stream is empty.
    pub fn parse(tokens: &Vec<Token>, stream_span: Span) -> (r: Result<Arg, ParseError>)
        ensures
            match r {
                Ok(a) => arg_outcome(view_tokens(tokens@), stream_span) == Ok::<
                    (Seq<char>, Span),
                    ParseError,
                >((a.name_view(), a.span_view())),
                Err(e) => arg_outcome(view_tokens(tokens@), stream_span) == Err::<
                    (Seq<char>, Span),
                    ParseError,
                >(e),
            },
    {
        proof {
            lemma_view_tokens_len(tokens@);
        }
        if tokens.len() == 0 {
            return Err(ParseError::new(ParseErrorKind::MissingArgument, stream_span));
        }
        proof {
            lemma_view_tokens_index(tokens@, 0);
        }
        let first = &tokens[0];
        match first {
            Token::Ident { text, span } => {
                if tokens.len() > 1 {
                    proof {
                        lemma_view_tokens_index(tokens@, 1);
                        lemma_view_tokens_index(tokens@, tokens@.len() - 1);
                    }
                    let lo = tokens[1].span().lo;
                    let hi = tokens[tokens.len() - 1].span().hi;
                    return Err(
                        ParseError::new(ParseErrorKind::TooManyArguments, Span { lo, hi }),
                    );
                }
                Ok(Arg { name: text.clone(), span: *span })
            },
            _ => Err(ParseError::new(ParseErrorKind::ArgumentNotIdentifier, first.span())),
        }
    }
}

} // verus!
