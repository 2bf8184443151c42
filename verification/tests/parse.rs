use injectable::arg::Arg;
use injectable::error::{ParseError, ParseErrorKind};
use injectable::input::Input;
use injectable::token::{Delim, Span, Token};

fn sp(lo: usize, hi: usize) -> Span {
    Span { lo, hi }
}

fn id(text: &str, lo: usize, hi: usize) -> Token {
    Token::Ident { text: text.to_string(), span: sp(lo, hi) }
}

fn punct(ch: char, lo: usize, hi: usize) -> Token {
    Token::Punct { ch, span: sp(lo, hi) }
}

fn lit(text: &str, lo: usize, hi: usize) -> Token {
    Token::Literal { text: text.to_string(), span: sp(lo, hi) }
}

fn group(delim: Delim, tokens: Vec<Token>, lo: usize, hi: usize) -> Token {
    Token::Group { delim, tokens, span: sp(lo, hi) }
}

/// `&self` as a parameter list.
fn receiver_params(lo: usize) -> Vec<Token> {
    vec![punct('&', lo, lo + 1), id("self", lo + 1, lo + 5)]
}

#[test]
fn not_trait() {
    let input = vec![lit("1", 0, 1), punct('+', 1, 2), lit("1", 2, 3)];
    let result = Input::parse(input, sp(0, 3));
    match result {
        Ok(_) => {
            panic!("unknown error");
        }
        Err(e) => {
            assert_eq!(e.message(), ParseErrorKind::NotInterface.message());
        }
    }
}

#[test]
fn empty() {
    let input = vec![id("Mock", 0, 4), group(Delim::Brace, Vec::new(), 5, 7)];
    let result = Input::parse(input, sp(0, 7));
    match result {
        Ok(_) => {
            panic!("unknown error");
        }
        Err(e) => {
            assert_eq!(e.message(), ParseErrorKind::EmptyInterface.message());
        }
    }
}

#[test]
fn empty_interface_span_is_body() {
    let input = vec![id("Empty", 0, 5), group(Delim::Brace, Vec::new(), 6, 8)];
    let result = Input::parse(input, sp(0, 8));
    assert_eq!(
        result.unwrap_err(),
        ParseError { kind: ParseErrorKind::EmptyInterface, span: sp(6, 8) }
    );
}

#[test]
fn arg_empty() {
    let result = Arg::parse(&Vec::new(), sp(3, 9));
    assert_eq!(
        result.unwrap_err(),
        ParseError { kind: ParseErrorKind::MissingArgument, span: sp(3, 9) }
    );
}

#[test]
fn arg_ok() {
    let tokens = vec![id("mock", 0, 4)];
    let a = Arg::parse(&tokens, sp(0, 4)).unwrap();
    assert_eq!(a.get_name(), "mock");
    assert_eq!(a.get_span(), sp(0, 4));
}

#[test]
fn arg_not_ident() {
    let tokens = vec![lit("1", 2, 3)];
    let result = Arg::parse(&tokens, sp(2, 3));
    assert_eq!(
        result.unwrap_err(),
        ParseError { kind: ParseErrorKind::ArgumentNotIdentifier, span: sp(2, 3) }
    );
}

#[test]
fn arg_too_many() {
    let tokens = vec![id("mock", 0, 4), punct(',', 4, 5), lit("1", 5, 6)];
    let result = Arg::parse(&tokens, sp(0, 6));
    assert_eq!(
        result.unwrap_err(),
        ParseError { kind: ParseErrorKind::TooManyArguments, span: sp(4, 6) }
    );
}

#[test]
fn arg_trailing_span_covers_all_extra_tokens() {
    let tokens = vec![id("a", 0, 1), punct(',', 1, 2), id("b", 3, 4)];
    let result = Arg::parse(&tokens, sp(0, 4));
    assert_eq!(
        result.unwrap_err(),
        ParseError { kind: ParseErrorKind::TooManyArguments, span: sp(1, 4) }
    );
}

#[test]
fn interface_ok_single_method() {
    let input = vec![
        id("Mock", 0, 4),
        group(
            Delim::Brace,
            vec![
                id("fn", 6, 8),
                id("something", 9, 18),
                group(Delim::Paren, receiver_params(19), 18, 25),
                punct(';', 25, 26),
            ],
            5,
            27,
        ),
    ];
    let parsed = Input::parse(input, sp(0, 27)).unwrap();
    assert_eq!(parsed.name(), "Mock");
    let fields = parsed.fields();
    assert_eq!(fields.len(), 1);
    assert_eq!(fields[0].name, "something");
    assert_eq!(fields[0].output, None);
    assert_eq!(fields[0].args, Vec::new());
}

#[test]
fn not_method_member() {
    // Mock { type Aa = bool; }
    let input = vec![
        id("Mock", 0, 4),
        group(
            Delim::Brace,
            vec![
                id("type", 6, 10),
                id("Aa", 11, 13),
                punct('=', 13, 14),
                id("bool", 14, 18),
                punct(';', 18, 19),
            ],
            5,
            20,
        ),
    ];
    let result = Input::parse(input, sp(0, 20));
    assert_eq!(
        result.unwrap_err(),
        ParseError { kind: ParseErrorKind::NonMethodMember, span: sp(6, 19) }
    );
}

#[test]
fn first_non_method_member_reported() {
    // A method without a receiver stands first, a non-method member second:
    // the non-method member wins, whatever its position relative to the
    // receiver offence.
    let input = vec![
        id("Mock", 0, 4),
        group(
            Delim::Brace,
            vec![
                id("fn", 6, 8),
                id("a", 9, 10),
                group(Delim::Paren, Vec::new(), 10, 12),
                punct(';', 12, 13),
                id("type", 14, 18),
                id("Aa", 19, 21),
                punct(';', 21, 22),
            ],
            5,
            23,
        ),
    ];
    let result = Input::parse(input, sp(0, 23));
    assert_eq!(
        result.unwrap_err(),
        ParseError { kind: ParseErrorKind::NonMethodMember, span: sp(14, 22) }
    );
}

#[test]
fn static_method_with_empty_arg() {
    // Mock { fn something(); }
    let input = vec![
        id("Mock", 0, 4),
        group(
            Delim::Brace,
            vec![
                id("fn", 6, 8),
                id("something", 9, 18),
                group(Delim::Paren, Vec::new(), 18, 20),
                punct(';', 20, 21),
            ],
            5,
            22,
        ),
    ];
    let result = Input::parse(input, sp(0, 22));
    // No parameter at all: the whole member is the reported range.
    assert_eq!(
        result.unwrap_err(),
        ParseError { kind: ParseErrorKind::StaticMethodMember, span: sp(6, 21) }
    );
}

#[test]
fn static_method_with_arg() {
    // Mock { fn something(arg: bool); }
    let input = vec![
        id("Mock", 0, 4),
        group(
            Delim::Brace,
            vec![
                id("fn", 6, 8),
                id("something", 9, 18),
                group(
                    Delim::Paren,
                    vec![id("arg", 19, 22), punct(':', 22, 23), id("bool", 24, 28)],
                    18,
                    29,
                ),
                punct(';', 29, 30),
            ],
            5,
            31,
        ),
    ];
    let result = Input::parse(input, sp(0, 31));
    // The offending first parameter is the reported range.
    assert_eq!(
        result.unwrap_err(),
        ParseError { kind: ParseErrorKind::StaticMethodMember, span: sp(19, 28) }
    );
}

#[test]
fn receiver_forms_accepted() {
    let forms: Vec<Vec<Token>> = vec![
        vec![id("self", 0, 4)],
        vec![id("mut", 0, 3), id("self", 4, 8)],
        vec![punct('&', 0, 1), id("self", 1, 5)],
        vec![punct('&', 0, 1), id("mut", 1, 4), id("self", 5, 9)],
    ];
    for params in forms {
        let input = vec![
            id("Mock", 0, 4),
            group(
                Delim::Brace,
                vec![
                    id("fn", 6, 8),
                    id("a", 9, 10),
                    group(Delim::Paren, params, 10, 20),
                    punct(';', 20, 21),
                ],
                5,
                22,
            ),
        ];
        assert!(Input::parse(input, sp(0, 22)).is_ok());
    }
}

#[test]
fn get_fields_name() {
    let input = vec![
        id("Mock", 0, 4),
        group(
            Delim::Brace,
            vec![
                id("fn", 6, 8),
                id("something", 9, 18),
                group(Delim::Paren, receiver_params(19), 18, 25),
                punct(';', 25, 26),
            ],
            5,
            27,
        ),
    ];
    let parsed = Input::parse(input, sp(0, 27)).unwrap();
    let fields = parsed.fields();
    if fields.len() > 1 {
        panic!("fields too many on logic.");
    }
    assert_eq!(fields[0].name, "something".to_string());
}

#[test]
fn get_fields_output_with_type() {
    // Mock { fn something(&self) -> bool; }
    let input = vec![
        id("Mock", 0, 4),
        group(
            Delim::Brace,
            vec![
                id("fn", 6, 8),
                id("something", 9, 18),
                group(Delim::Paren, receiver_params(19), 18, 25),
                punct('-', 26, 27),
                punct('>', 27, 28),
                id("bool", 29, 33),
                punct(';', 33, 34),
            ],
            5,
            35,
        ),
    ];
    let parsed = Input::parse(input, sp(0, 35)).unwrap();
    let fields = parsed.fields();
    assert_eq!(fields.len(), 1);
    assert_eq!(fields[0].output, Some(vec![id("bool", 29, 33)]));
}

#[test]
fn get_fields_args_after_receiver() {
    // Mock { fn something(&self, x: bool); }
    let input = vec![
        id("Mock", 0, 4),
        group(
            Delim::Brace,
            vec![
                id("fn", 6, 8),
                id("something", 9, 18),
                group(
                    Delim::Paren,
                    vec![
                        punct('&', 19, 20),
                        id("self", 20, 24),
                        punct(',', 24, 25),
                        id("x", 26, 27),
                        punct(':', 27, 28),
                        id("bool", 29, 33),
                    ],
                    18,
                    34,
                ),
                punct(';', 34, 35),
            ],
            5,
            36,
        ),
    ];
    let parsed = Input::parse(input, sp(0, 36)).unwrap();
    let fields = parsed.fields();
    assert_eq!(fields.len(), 1);
    assert_eq!(
        fields[0].args,
        vec![id("x", 26, 27), punct(':', 27, 28), id("bool", 29, 33)]
    );
}

#[test]
fn messages_are_canonical() {
    assert_eq!(
        ParseErrorKind::MissingArgument.message(),
        "The inject macro needs the arg."
    );
    assert_eq!(
        ParseErrorKind::TooManyArguments.message(),
        "The inject macro needs only one arg."
    );
    assert_eq!(
        ParseErrorKind::ArgumentNotIdentifier.message(),
        "The inject macro needs a ident as the arg."
    );
    assert_eq!(
        ParseErrorKind::NotInterface.message(),
        "The inject macro needs a trait as input."
    );
    assert_eq!(
        ParseErrorKind::EmptyInterface.message(),
        "The inject macro needs some methods on the trait as input."
    );
    assert_eq!(
        ParseErrorKind::NonMethodMember.message(),
        "The inject macro needs methods only."
    );
    assert_eq!(
        ParseErrorKind::StaticMethodMember.message(),
        "The inject macro needs instance methods only."
    );
}

#[test]
fn diagnostic_carries_kind_and_span() {
    let e = ParseErrorKind::NotInterface.at(sp(4, 9));
    assert_eq!(e, ParseError::new(ParseErrorKind::NotInterface, sp(4, 9)));
    assert_eq!(e.message(), ParseErrorKind::NotInterface.message());
}

#[test]
fn not_interface_with_trailing_tokens() {
    let input = vec![
        id("Mock", 0, 4),
        group(Delim::Brace, Vec::new(), 5, 7),
        id("extra", 8, 13),
    ];
    let result = Input::parse(input, sp(0, 13));
    assert_eq!(
        result.unwrap_err(),
        ParseError { kind: ParseErrorKind::NotInterface, span: sp(0, 13) }
    );
}

#[test]
fn not_interface_with_bracket_body() {
    let input = vec![id("Mock", 0, 4), group(Delim::Bracket, Vec::new(), 5, 7)];
    let result = Input::parse(input, sp(0, 7));
    assert_eq!(
        result.unwrap_err(),
        ParseError { kind: ParseErrorKind::NotInterface, span: sp(0, 7) }
    );
}

#[test]
fn member_without_terminator_is_not_a_method() {
    // Mock { fn a(&self) } -- the closing `;` is missing, so the trailing
    // run is one malformed member.
    let input = vec![
        id("Mock", 0, 4),
        group(
            Delim::Brace,
            vec![
                id("fn", 6, 8),
                id("a", 9, 10),
                group(Delim::Paren, receiver_params(11), 10, 17),
            ],
            5,
            19,
        ),
    ];
    let result = Input::parse(input, sp(0, 19));
    assert_eq!(
        result.unwrap_err(),
        ParseError { kind: ParseErrorKind::NonMethodMember, span: sp(6, 17) }
    );
}
