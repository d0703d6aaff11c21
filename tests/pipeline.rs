use rust_lexer::lexer::{lexer, render, tokenize, LexError};
use rust_lexer::parser::{
    parse, parse_assignment, parse_expression, parse_factor, parse_primary, parse_program,
    parse_statement, parse_term, ASTNode, BinaryOperator, Expected, ParseError, UnaryOperator,
};
use rust_lexer::token::{classify, Token};

fn ident(s: &str) -> Token {
    Token::Identifier(s.to_string())
}

fn num(s: &str) -> Token {
    Token::NumberLiteral(s.to_string())
}

fn lit(s: &str) -> Box<ASTNode> {
    Box::new(ASTNode::Literal(s.to_string()))
}

fn bin(op: BinaryOperator, l: Box<ASTNode>, r: Box<ASTNode>) -> Box<ASTNode> {
    Box::new(ASTNode::BinaryOp(op, l, r))
}

fn assign(name: &str, e: Box<ASTNode>) -> ASTNode {
    ASTNode::Assignment(name.to_string(), e)
}

fn program_of(src: &str) -> Result<ASTNode, ParseError> {
    let tokens = tokenize(src).unwrap();
    parse(&tokens)
}

#[test]
fn tokenize_simple_assignment() {
    let tokens = tokenize("x = 1 + 2").unwrap();
    assert_eq!(
        tokens,
        vec![ident("x"), Token::Equals, num("1"), Token::Plus, num("2"), Token::EndOfInput]
    );
}

#[test]
fn parse_simple_assignment() {
    let tokens = vec![ident("x"), Token::Equals, num("1"), Token::Plus, num("2"), Token::EndOfInput];
    let ast = parse(&tokens).unwrap();
    assert_eq!(
        ast,
        ASTNode::Program(vec![assign("x", bin(BinaryOperator::Add, lit("1"), lit("2")))])
    );
}

#[test]
fn subtraction_is_left_associative() {
    let ast = program_of("x = 1 - 2 - 3").unwrap();
    let expected = assign(
        "x",
        bin(BinaryOperator::Sub, bin(BinaryOperator::Sub, lit("1"), lit("2")), lit("3")),
    );
    assert_eq!(ast, ASTNode::Program(vec![expected]));
}

#[test]
fn unary_minus_binds_tighter_than_star() {
    let ast = program_of("x = -2 * 3").unwrap();
    let expected = assign(
        "x",
        bin(
            BinaryOperator::Mul,
            Box::new(ASTNode::UnaryOp(UnaryOperator::Neg, lit("2"))),
            lit("3"),
        ),
    );
    assert_eq!(ast, ASTNode::Program(vec![expected]));
}

#[test]
fn unterminated_paren_is_unclosed() {
    assert_eq!(program_of("x = (1 + 2"), Err(ParseError::UnclosedParen { open_position: 2 }));
}

#[test]
fn empty_input() {
    let tokens = tokenize("").unwrap();
    assert_eq!(tokens, vec![Token::EndOfInput]);
    assert_eq!(parse(&tokens), Ok(ASTNode::Program(vec![])));
}

#[test]
fn star_binds_tighter_than_plus() {
    let ast = program_of("y = a + b * 2").unwrap();
    let expected = assign(
        "y",
        bin(
            BinaryOperator::Add,
            Box::new(ASTNode::Identifier("a".to_string())),
            bin(BinaryOperator::Mul, Box::new(ASTNode::Identifier("b".to_string())), lit("2")),
        ),
    );
    assert_eq!(ast, ASTNode::Program(vec![expected]));
}

#[test]
fn parentheses_reset_precedence() {
    let ast = program_of("z = (1 + 2) / 3").unwrap();
    let expected = assign(
        "z",
        bin(BinaryOperator::Div, bin(BinaryOperator::Add, lit("1"), lit("2")), lit("3")),
    );
    assert_eq!(ast, ASTNode::Program(vec![expected]));
}

#[test]
fn double_negation_nests() {
    let ast = program_of("x = --1").unwrap();
    let inner = Box::new(ASTNode::UnaryOp(UnaryOperator::Neg, lit("1")));
    let expected = assign("x", Box::new(ASTNode::UnaryOp(UnaryOperator::Neg, inner)));
    assert_eq!(ast, ASTNode::Program(vec![expected]));
}

#[test]
fn several_statements() {
    let ast = program_of("a = 1\nb = a").unwrap();
    let expected = vec![
        assign("a", lit("1")),
        assign("b", Box::new(ASTNode::Identifier("a".to_string()))),
    ];
    assert_eq!(ast, ASTNode::Program(expected));
}

#[test]
fn statement_must_start_with_identifier() {
    assert_eq!(
        program_of("1 = 2"),
        Err(ParseError::UnexpectedToken {
            expected: Expected::Statement,
            found: num("1"),
            position: 0
        })
    );
}

#[test]
fn assignment_needs_equals() {
    assert_eq!(
        program_of("x 1"),
        Err(ParseError::UnexpectedToken { expected: Expected::Equals, found: num("1"), position: 1 })
    );
}

#[test]
fn missing_expression_is_reported() {
    assert_eq!(
        program_of("x = }"),
        Err(ParseError::UnexpectedToken {
            expected: Expected::Expression,
            found: Token::RBrace,
            position: 2
        })
    );
    assert_eq!(
        program_of("x ="),
        Err(ParseError::UnexpectedToken {
            expected: Expected::Expression,
            found: Token::EndOfInput,
            position: 2
        })
    );
}

#[test]
fn wrong_closing_token_is_reported() {
    assert_eq!(
        program_of("x = (1 , 2)"),
        Err(ParseError::UnexpectedToken {
            expected: Expected::ClosingParen,
            found: Token::Comma,
            position: 4
        })
    );
}

#[test]
fn tokens_without_end_marker_still_parse() {
    let tokens = vec![ident("x"), Token::Equals, ident("y")];
    let expected = assign("x", Box::new(ASTNode::Identifier("y".to_string())));
    assert_eq!(parse_program(&tokens), Ok(ASTNode::Program(vec![expected])));
}

#[test]
fn invalid_character_reports_first_position() {
    assert_eq!(tokenize("ab $ #"), Err(LexError::InvalidCharacter { ch: '$', position: 3 }));
    assert_eq!(tokenize(".5"), Err(LexError::InvalidCharacter { ch: '.', position: 0 }));
    assert_eq!(tokenize("a.b"), Err(LexError::InvalidCharacter { ch: '.', position: 1 }));
}

#[test]
fn decimal_literals() {
    let tokens = tokenize("x = 1.5 + 12.").unwrap();
    assert_eq!(
        tokens,
        vec![ident("x"), Token::Equals, num("1.5"), Token::Plus, num("12."), Token::EndOfInput]
    );
    let ast = parse(&tokens).unwrap();
    let expected = assign("x", bin(BinaryOperator::Add, lit("1.5"), lit("12.")));
    assert_eq!(ast, ASTNode::Program(vec![expected]));
}

#[test]
fn malformed_numbers_are_reported() {
    assert_eq!(
        tokenize("y = 1.2.3 + 4"),
        Err(LexError::MalformedNumber { text: "1.2.3".to_string(), position: 4 })
    );
    assert_eq!(
        tokenize("3.5x"),
        Err(LexError::MalformedNumber { text: "3.5x".to_string(), position: 0 })
    );
    assert_eq!(
        lexer("1..$"),
        Err(LexError::MalformedNumber { text: "1..".to_string(), position: 0 })
    );
}

#[test]
fn tokenize_all_symbols_and_whitespace() {
    let tokens = tokenize("( ) {}:,\t=+-*/\r\n").unwrap();
    assert_eq!(
        tokens,
        vec![
            Token::LParen,
            Token::RParen,
            Token::LBrace,
            Token::RBrace,
            Token::Colon,
            Token::Comma,
            Token::Equals,
            Token::Plus,
            Token::Minus,
            Token::Star,
            Token::Slash,
            Token::EndOfInput
        ]
    );
}

#[test]
fn digits_then_letters_is_identifier() {
    let tokens = tokenize("12ab 007 _x9").unwrap();
    assert_eq!(tokens, vec![ident("12ab"), num("007"), ident("_x9"), Token::EndOfInput]);
}

#[test]
fn lexer_splits_runs_and_symbols() {
    let words = lexer("foo(bar,1)  baz").unwrap();
    assert_eq!(words, vec!["foo", "(", "bar", ",", "1", ")", "baz"]);
    assert_eq!(lexer("a?"), Err(LexError::InvalidCharacter { ch: '?', position: 1 }));
}

#[test]
fn spans_spell_input_without_whitespace() {
    let src = "x1 = (y+ 22)*z\n{a:b,c}";
    let tokens = tokenize(src).unwrap();
    let spelled: String = tokens.iter().map(|t| t.text()).collect();
    let stripped: String = src.chars().filter(|c| !c.is_whitespace()).collect();
    assert_eq!(spelled, stripped);
}

#[test]
fn retokenizing_printed_tokens_is_identity() {
    let tokens = tokenize("x=1.25+foo*(bar-2)\n{q:r,s}").unwrap();
    let printed = render(&tokens);
    assert_eq!(printed, "x = 1.25 + foo * ( bar - 2 ) { q : r , s } ");
    assert_eq!(tokenize(&printed).unwrap(), tokens);
}

#[test]
fn classify_lexemes() {
    assert_eq!(classify(&"42".to_string()), num("42"));
    assert_eq!(classify(&"4a".to_string()), ident("4a"));
    assert_eq!(classify(&"4.2".to_string()), num("4.2"));
    assert_eq!(classify(&"=".to_string()), Token::Equals);
    assert_eq!(classify(&"/".to_string()), Token::Slash);
    assert_eq!(Token::Colon.text(), ":");
    assert_eq!(Token::EndOfInput.text(), "");
}

#[test]
fn subparsers_report_position_after() {
    let tokens = tokenize("x = a * b + c").unwrap();
    let (_, q) = parse_assignment(&tokens, 0).unwrap();
    assert_eq!(q, 7);
    let (_, q) = parse_statement(&tokens, 0).unwrap();
    assert_eq!(q, 7);
    let (_, q) = parse_expression(&tokens, 2).unwrap();
    assert_eq!(q, 7);
    let (_, q) = parse_term(&tokens, 2).unwrap();
    assert_eq!(q, 5);
    let (_, q) = parse_factor(&tokens, 2).unwrap();
    assert_eq!(q, 3);
    let (n, q) = parse_primary(&tokens, 6).unwrap();
    assert_eq!((n, q), (ASTNode::Identifier("c".to_string()), 7));
}

#[test]
fn tokens_after_end_marker_are_rejected() {
    let tokens = vec![Token::EndOfInput, ident("x")];
    assert_eq!(
        parse(&tokens),
        Err(ParseError::UnexpectedToken {
            expected: Expected::EndOfInput,
            found: ident("x"),
            position: 1
        })
    );
    let tokens = vec![ident("x"), Token::Equals, num("1"), Token::EndOfInput, Token::EndOfInput];
    assert_eq!(
        parse_program(&tokens),
        Err(ParseError::UnexpectedToken {
            expected: Expected::EndOfInput,
            found: Token::EndOfInput,
            position: 4
        })
    );
}
