use injectable::arg::Arg;
use injectable::error::{ParseError, ParseErrorKind};
use injectable::injectable;
use injectable::input::Input;
use injectable::make::make;
use injectable::render::render;
use injectable::token::{Delim, Span, Token};

fn sp(lo: usize, hi: usize) -> Span {
    Span { lo, hi }
}

fn id(text: &str, lo: usize, hi: usize) -> Token {
    Token::Ident { text: text.to_string(), span: sp(lo, hi) }
}

fn punct(ch: char, lo: usize, hi: usize) -> Token {
    Token::Punct { ch, span: sp(lo, hi) }
}

fn group(delim: Delim, tokens: Vec<Token>, lo: usize, hi: usize) -> Token {
    Token::Group { delim, tokens, span: sp(lo, hi) }
}

/// `Greeter { fn hello(&self) -> String; }` as a token stream.
fn greeter_interface() -> Vec<Token> {
    vec![
        id("Greeter", 0, 7),
        group(
            Delim::Brace,
            vec![
                id("fn", 10, 12),
                id("hello", 13, 18),
                group(
                    Delim::Paren,
                    vec![punct('&', 19, 20), id("self", 20, 24)],
                    18,
                    25,
                ),
                punct('-', 26, 27),
                punct('>', 27, 28),
                id("String", 29, 35),
                punct(';', 35, 36),
            ],
            8,
            38,
        ),
    ]
}

/// What emission must yield for the greeter interface and target `target`
/// parsed from a single identifier spanning `[40, 46)`: the interface
/// unchanged, then `impl Greeter for target { fn hello() -> String {} }`
/// with the parameters dropped.
fn greeter_expected() -> Vec<Token> {
    let tsp = sp(40, 46);
    let nsp = sp(13, 18);
    let mut out = greeter_interface();
    out.push(Token::Ident { text: "impl".to_string(), span: tsp });
    out.push(id("Greeter", 0, 7));
    out.push(Token::Ident { text: "for".to_string(), span: tsp });
    out.push(Token::Ident { text: "target".to_string(), span: tsp });
    out.push(Token::Group {
        delim: Delim::Brace,
        tokens: vec![
            Token::Ident { text: "fn".to_string(), span: nsp },
            id("hello", 13, 18),
            Token::Group { delim: Delim::Paren, tokens: Vec::new(), span: nsp },
            Token::Punct { ch: '-', span: nsp },
            Token::Punct { ch: '>', span: nsp },
            id("String", 29, 35),
            Token::Group { delim: Delim::Brace, tokens: Vec::new(), span: nsp },
        ],
        span: tsp,
    });
    out
}

#[test]
fn greeter_success_output() {
    let arg_tokens = vec![id("target", 40, 46)];
    let out = injectable(&arg_tokens, sp(40, 46), greeter_interface(), sp(0, 38)).unwrap();
    assert_eq!(out, greeter_expected());
}

#[test]
fn greeter_success_text() {
    // The canonical one-line text of the emitted stream: every token
    // separated by one space, empty groups printed as adjacent delimiters.
    let arg_tokens = vec![id("target", 40, 46)];
    let out = injectable(&arg_tokens, sp(40, 46), greeter_interface(), sp(0, 38)).unwrap();
    let expected = "Greeter { fn hello ( & self ) - > String ; } impl Greeter for target { fn hello () - > String {} }";
    assert_eq!(render(&out), expected);
}

#[test]
fn emission_is_idempotent() {
    let arg_tokens = vec![id("target", 40, 46)];
    let arg = Arg::parse(&arg_tokens, sp(40, 46)).unwrap();
    let input = Input::parse(greeter_interface(), sp(0, 38)).unwrap();
    let first = make(&input, &arg);
    let second = make(&input, &arg);
    assert_eq!(first, second);
}

#[test]
fn output_names_interface_and_target() {
    let arg_tokens = vec![id("whatever", 50, 58)];
    let out = injectable(&arg_tokens, sp(50, 58), greeter_interface(), sp(0, 38)).unwrap();
    let raw_len = greeter_interface().len();
    assert_eq!(out[raw_len], Token::Ident { text: "impl".to_string(), span: sp(50, 58) });
    assert_eq!(out[raw_len + 1], id("Greeter", 0, 7));
    assert_eq!(out[raw_len + 2], Token::Ident { text: "for".to_string(), span: sp(50, 58) });
    assert_eq!(out[raw_len + 3], Token::Ident { text: "whatever".to_string(), span: sp(50, 58) });
    // The original interface stands unchanged in front.
    assert_eq!(&out[..raw_len], &greeter_interface()[..]);
}

#[test]
fn stubs_keep_declaration_order() {
    // Pair { fn first(&self); fn second(&self); }
    let input = vec![
        id("Pair", 0, 4),
        group(
            Delim::Brace,
            vec![
                id("fn", 6, 8),
                id("first", 9, 14),
                group(
                    Delim::Paren,
                    vec![punct('&', 15, 16), id("self", 16, 20)],
                    14,
                    21,
                ),
                punct(';', 21, 22),
                id("fn", 23, 25),
                id("second", 26, 32),
                group(
                    Delim::Paren,
                    vec![punct('&', 33, 34), id("self", 34, 38)],
                    32,
                    39,
                ),
                punct(';', 39, 40),
            ],
            5,
            42,
        ),
    ];
    let arg_tokens = vec![id("mock", 44, 48)];
    let out = injectable(&arg_tokens, sp(44, 48), input, sp(0, 42)).unwrap();
    match out.last().unwrap() {
        Token::Group { delim: Delim::Brace, tokens, .. } => {
            let names: Vec<String> = tokens
                .iter()
                .filter_map(|t| match t {
                    Token::Ident { text, .. } if text != "fn" => Some(text.clone()),
                    _ => None,
                })
                .collect();
            assert_eq!(names, vec!["first".to_string(), "second".to_string()]);
        }
        other => panic!("expected a brace group, got {:?}", other),
    }
}

#[test]
fn missing_argument_diagnostic() {
    let out = injectable(&Vec::new(), sp(0, 0), greeter_interface(), sp(0, 38));
    assert_eq!(
        out.unwrap_err(),
        ParseError { kind: ParseErrorKind::MissingArgument, span: sp(0, 0) }
    );
}

#[test]
fn argument_stream_validated_first() {
    // Both streams invalid: the argument stream's diagnostic surfaces.
    let out = injectable(&Vec::new(), sp(0, 0), Vec::new(), sp(0, 0));
    assert_eq!(
        out.unwrap_err(),
        ParseError { kind: ParseErrorKind::MissingArgument, span: sp(0, 0) }
    );
}

#[test]
fn failure_emits_nothing_but_one_diagnostic() {
    // Empty interface body: a single diagnostic, no code.
    let arg_tokens = vec![id("mock", 0, 4)];
    let input = vec![id("Empty", 6, 11), group(Delim::Brace, Vec::new(), 12, 14)];
    let out = injectable(&arg_tokens, sp(0, 4), input, sp(6, 14));
    assert_eq!(
        out.unwrap_err(),
        ParseError { kind: ParseErrorKind::EmptyInterface, span: sp(12, 14) }
    );
}
