use crate::token::Span;
use vstd::prelude::*;

verus! {

/// The closed set of validation failures. Each invocation surfaces at most
/// one of these, anchored to the source range of the offending tokens.
#[derive(Clone, Copy, Debug, PartialEq, Eq)]
pub enum ParseErrorKind {
    /// The argument stream holds no token at all.
    MissingArgument,
    /// The argument stream holds more than the one identifier.
    TooManyArguments,
    /// The first argument token is not an identifier.
    ArgumentNotIdentifier,
    /// The interface stream is not a name followed by a braced member list.
    NotInterface,
    /// The interface body holds no member.
    EmptyInterface,
    /// A member of the interface body is not a method signature.
    NonMethodMember,
    /// A method member's first parameter is missing or is not a receiver.
    StaticMethodMember,
}

/// The canonical text of each failure kind. No interpolation: the message
/// is fixed per tag.
pub open spec fn spec_message(k: ParseErrorKind) -> Seq<char> {
    match k {
        ParseErrorKind::MissingArgument => "The inject macro needs the arg."@,
        ParseErrorKind::TooManyArguments => "The inject macro needs only one arg."@,
        ParseErrorKind::ArgumentNotIdentifier => "The inject macro needs a ident as the arg."@,
        ParseErrorKind::NotInterface => "The inject macro needs a trait as input."@,
        ParseErrorKind::EmptyInterface => "The inject macro needs some methods on the trait as input."@,
        ParseErrorKind::NonMethodMember => "The inject macro needs methods only."@,
        ParseErrorKind::StaticMethodMember => "The inject macro needs instance methods only."@,
    }
}

/// A positioned diagnostic: one failure kind together with the source range
/// of the tokens that caused it.
#[derive(Clone, Copy, Debug, PartialEq, Eq)]
pub struct ParseError {
    pub kind: ParseErrorKind,
    pub span: Span,
}

impl ParseErrorKind {
    /// The fixed, user-facing message for this failure kind.
    pub fn message(&self) -> (r: &'static str)
        ensures
            r@ == spec_message(*self),
    {
        match *self {
            ParseErrorKind::MissingArgument => "The inject macro needs the arg.",
            ParseErrorKind::TooManyArguments => "The inject macro needs only one arg.",
            ParseErrorKind::ArgumentNotIdentifier => "The inject macro needs a ident as the arg.",
            ParseErrorKind::NotInterface => "The inject macro needs a trait as input.",
            ParseErrorKind::EmptyInterface => "The inject macro needs some methods on the trait as input.",
            ParseErrorKind::NonMethodMember => "The inject macro needs methods only.",
            ParseErrorKind::StaticMethodMember => "The inject macro needs instance methods only.",
        }
    }

    /// Anchors this failure kind to a source range, yielding the diagnostic
    /// that the host's error channel reports.
    pub fn at(&self, span: Span) -> (e: ParseError)
        ensures
            e.kind == *self,
            e.span == span,
    {
        ParseError { kind: *self, span }
    }
}

impl ParseError {
    /// A diagnostic of the given kind at the given source range.
    pub fn new(kind: ParseErrorKind, span: Span) -> (e: ParseError)
        ensures
            e.kind == kind,
            e.span == span,
    {
        ParseError { kind, span }
    }

    /// The fixed, user-facing message of this diagnostic.
    pub fn message(&self) -> (r: &'static str)
        ensures
            r@ == spec_message(self.kind),
    {
        self.kind.message()
    }
}

} // verus!
