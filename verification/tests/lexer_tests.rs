use tokenizer::lexer::lex;
use tokenizer::token::Token;

fn ok(input: &str) -> Vec<Token> {
    lex(&String::from(input)).expect("expected successful lexing")
}

fn err(input: &str) -> Vec<String> {
    lex(&String::from(input)).expect_err("expected lexical errors")
}

fn uident(s: &str) -> Token {
    Token::UnqualifiedIdent(String::from(s))
}

fn qident(s: &str) -> Token {
    Token::Ident(String::from(s))
}

fn number(s: &str) -> Token {
    Token::Number(String::from(s))
}

fn number_value(t: &Token) -> f64 {
    match t {
        Token::Number(s) => {
            let cleaned: String = s.chars().filter(|c| *c != '_').collect();
            cleaned.parse::<f64>().expect("number payload must parse")
        }
        _ => panic!("not a number token"),
    }
}

#[test]
fn empty_input() {
    assert_eq!(ok(""), vec![]);
}

#[test]
fn whitespace_only() {
    assert_eq!(ok("  \t\n\r\x0C  "), vec![]);
}

#[test]
fn statement_scenario() {
    assert_eq!(
        ok("if x <= 10 { return x + 1; }"),
        vec![
            Token::KwIf,
            uident("x"),
            Token::LessEquals,
            number("10"),
            Token::LCurly,
            Token::KwReturn,
            uident("x"),
            Token::Plus,
            number("1"),
            Token::Semicolon,
            Token::RCurly,
        ]
    );
}

#[test]
fn keyword_not_identifier() {
    assert_eq!(ok("module"), vec![Token::KwModule]);
}

#[test]
fn all_keywords_are_singletons() {
    let cases: Vec<(&str, Token)> = vec![
        ("module", Token::KwModule),
        ("import", Token::KwImport),
        ("if", Token::KwIf),
        ("elif", Token::KwElif),
        ("else", Token::KwElse),
        ("for", Token::KwFor),
        ("in", Token::KwIn),
        ("while", Token::KwWhile),
        ("break", Token::KwBreak),
        ("continue", Token::KwContinue),
        ("return", Token::KwReturn),
        ("class", Token::KwClass),
        ("struct", Token::KwStruct),
        ("override", Token::KwOverride),
        ("mut", Token::KwMut),
        ("type", Token::KwType),
        ("and", Token::KwAnd),
        ("or", Token::KwOr),
        ("is", Token::KwIs),
        ("isnot", Token::KwIsNot),
        ("not", Token::KwNot),
        ("clone", Token::KwClone),
    ];
    for (spelling, tok) in cases {
        assert_eq!(ok(spelling), vec![tok], "keyword {spelling}");
    }
}

#[test]
fn identifier_closure() {
    assert_eq!(ok("modules"), vec![uident("modules")]);
    assert_eq!(ok("x"), vec![uident("x")]);
    assert_eq!(ok("ifx"), vec![uident("ifx")]);
    assert_eq!(ok("foo_1_bar"), vec![uident("foo_1_bar")]);
    assert_eq!(ok("A9_"), vec![uident("A9_")]);
}

#[test]
fn qualified_identifier_single_token() {
    assert_eq!(ok("foo.bar.baz"), vec![qident("foo.bar.baz")]);
    assert_eq!(ok("a.b"), vec![qident("a.b")]);
    assert_eq!(ok("module.x"), vec![qident("module.x")]);
}

#[test]
fn qualified_suffix_stops_at_underscore() {
    // no underscore inside a dotted suffix: the rest lexes separately
    assert_eq!(
        ok("a.b_c"),
        vec![qident("a.b"), Token::Underscore, uident("c")]
    );
}

#[test]
fn dangling_dot_is_not_qualified() {
    assert_eq!(ok("a."), vec![uident("a"), Token::Dot]);
    assert_eq!(ok("a.1"), vec![uident("a"), Token::Dot, number("1")]);
}

#[test]
fn grouped_number_with_fraction() {
    let toks = ok("1_000.5");
    assert_eq!(toks, vec![number("1_000.5")]);
    assert_eq!(number_value(&toks[0]), 1000.5);
}

#[test]
fn number_shapes() {
    assert_eq!(ok("0"), vec![number("0")]);
    assert_eq!(ok("1_000"), vec![number("1_000")]);
    assert_eq!(ok("12.25"), vec![number("12.25")]);
    assert_eq!(ok("1_000_000.123_456"), vec![number("1_000_000.123_456")]);
    // a trailing underscore is not part of the number
    assert_eq!(ok("1_"), vec![number("1"), Token::Underscore]);
    // a doubled underscore ends the number
    assert_eq!(
        ok("1__2"),
        vec![number("1"), Token::Underscore, Token::Underscore, number("2")]
    );
    // a dot with no digit after it is a separate token
    assert_eq!(ok("3."), vec![number("3"), Token::Dot]);
    assert_eq!(number_value(&ok("12.25")[0]), 12.25);
}

#[test]
fn increment_decrement_scenario() {
    assert_eq!(
        ok("a ++ b -- c += 2"),
        vec![
            uident("a"),
            Token::Increment,
            uident("b"),
            Token::Decrement,
            uident("c"),
            Token::PlusAssign,
            number("2"),
        ]
    );
}

#[test]
fn maximal_munch_operators() {
    assert_eq!(ok("=="), vec![Token::Equals]);
    assert_eq!(ok("= ="), vec![Token::Assign, Token::Assign]);
    assert_eq!(ok("<="), vec![Token::LessEquals]);
    assert_eq!(ok("< ="), vec![Token::LAngle, Token::Assign]);
    assert_eq!(ok("->"), vec![Token::Arrow]);
    assert_eq!(ok("- >"), vec![Token::Minus, Token::RAngle]);
    assert_eq!(ok("++"), vec![Token::Increment]);
    assert_eq!(ok("+ +"), vec![Token::Plus, Token::Plus]);
    assert_eq!(ok("!="), vec![Token::NotEquals]);
}

#[test]
fn all_single_operators() {
    assert_eq!(
        ok("_ ; . : ( ) [ ] { } + - * / % = < >"),
        vec![
            Token::Underscore,
            Token::Semicolon,
            Token::Dot,
            Token::Colon,
            Token::LParen,
            Token::RParen,
            Token::LSquare,
            Token::RSquare,
            Token::LCurly,
            Token::RCurly,
            Token::Plus,
            Token::Minus,
            Token::Star,
            Token::Divide,
            Token::Modulo,
            Token::Assign,
            Token::LAngle,
            Token::RAngle,
        ]
    );
}

#[test]
fn all_double_operators() {
    assert_eq!(
        ok("== != <= >= -> += -= *= /= %= ++ --"),
        vec![
            Token::Equals,
            Token::NotEquals,
            Token::LessEquals,
            Token::GreaterEquals,
            Token::Arrow,
            Token::PlusAssign,
            Token::MinusAssign,
            Token::MultiplyAssign,
            Token::DivideAssign,
            Token::ModuloAssign,
            Token::Increment,
            Token::Decrement,
        ]
    );
}

#[test]
fn lone_unrecognized_byte() {
    assert_eq!(err("@"), vec![String::from("Error: \"@\"")]);
}

#[test]
fn unmatched_run_reported_once() {
    assert_eq!(err("@#$"), vec![String::from("Error: \"@#$\"")]);
}

#[test]
fn bang_alone_is_unmatched() {
    assert_eq!(err("!"), vec![String::from("Error: \"!\"")]);
}

#[test]
fn string_literals_are_unsupported() {
    // each lone quote is an unmatched span; the word between them still lexes
    let errors = err("'abc'");
    assert_eq!(
        errors,
        vec![String::from("Error: \"'\""), String::from("Error: \"'\"")]
    );
}

#[test]
fn error_collects_all_spans() {
    assert_eq!(
        err("a @ b # c"),
        vec![String::from("Error: \"@\""), String::from("Error: \"#\"")]
    );
}

#[test]
fn error_locality() {
    // tokens around an unmatched span match those of the input without it
    let with_err = lex(&String::from("if @ x")).expect_err("has an error");
    assert_eq!(with_err, vec![String::from("Error: \"@\"")]);
    let without = ok("if  x");
    assert_eq!(without, vec![Token::KwIf, uident("x")]);
}

#[test]
fn no_tokens_returned_on_error() {
    let r = lex(&String::from("if @ x"));
    assert!(r.is_err());
}

#[test]
fn non_ascii_is_an_error() {
    let errors = err("émile");
    assert_eq!(errors, vec![String::from("Error: \"é\"")]);
}
