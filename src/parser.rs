use vstd::prelude::*;

use crate::token::Token;

verus! {

#[derive(Debug, Clone, Copy, PartialEq, Eq)]
pub enum BinaryOperator {
    Add,
    Sub,
    Mul,
    Div,
}

#[derive(Debug, Clone, Copy, PartialEq, Eq)]
pub enum UnaryOperator {
    Neg,
}

/// A node of the syntax tree. Each node owns its children.
#[derive(Debug, PartialEq, Eq)]
pub enum ASTNode {
    Program(Vec<ASTNode>),
    Assignment(String, Box<ASTNode>),
    BinaryOp(BinaryOperator, Box<ASTNode>, Box<ASTNode>),
    UnaryOp(UnaryOperator, Box<ASTNode>),
    Identifier(String),
    /// A number literal, as its decimal digits.
    Literal(String),
}

/// What the parser was looking for when it met an unexpected token.
#[derive(Debug, Clone, Copy, PartialEq, Eq)]
pub enum Expected {
    /// The start of a statement: an identifier.
    Statement,
    Equals,
    /// The start of an expression: an identifier, a number, `(` or `-`.
    Expression,
    ClosingParen,
    /// Nothing after the end marker.
    EndOfInput,
}

/// An error of the parser.
#[derive(Debug, Clone, PartialEq, Eq)]
pub enum ParseError {
    UnexpectedToken { expected: Expected, found: Token, position: usize },
    /// The `(` at `open_position` is never closed before the end of input.
    UnclosedParen { open_position: usize },
}

/// The token at position `p`; past the end the input is over.
pub open spec fn peek(t: Seq<Token>, p: int) -> Token {
    if 0 <= p < t.len() {
        t[p]
    } else {
        Token::EndOfInput
    }
}

pub open spec fn unexpected(expected: Expected, t: Seq<Token>, p: int) -> ParseError {
    ParseError::UnexpectedToken { expected, found: peek(t, p), position: p as usize }
}

pub open spec fn additive_op(tok: Token) -> Option<BinaryOperator> {
    match tok {
        Token::Plus => Some(BinaryOperator::Add),
        Token::Minus => Some(BinaryOperator::Sub),
        _ => None,
    }
}

pub open spec fn multiplicative_op(tok: Token) -> Option<BinaryOperator> {
    match tok {
        Token::Star => Some(BinaryOperator::Mul),
        Token::Slash => Some(BinaryOperator::Div),
        _ => None,
    }
}

// The grammar, one spec function per nonterminal. Each returns the node and
// the position after it. The tests `p < q <= t.len()` on positions that
// come back always hold (the parsing functions prove it); they let the
// recursion be seen to terminate.

/// `primary := Identifier | NumberLiteral | '(' expression ')'`
pub open spec fn spec_primary(t: Seq<Token>, p: int) -> Result<(ASTNode, int), ParseError>
    decreases t.len() - p, 0int,
{
    match peek(t, p) {
        Token::Identifier(name) => Ok((ASTNode::Identifier(name), p + 1)),
        Token::NumberLiteral(digits) => Ok((ASTNode::Literal(digits), p + 1)),
        Token::LParen => match spec_expression(t, p + 1) {
            Err(e) => Err(e),
            Ok((e, q)) => if peek(t, q) is RParen {
                Ok((e, q + 1))
            } else if peek(t, q) is EndOfInput {
                Err(ParseError::UnclosedParen { open_position: p as usize })
            } else {
                Err(unexpected(Expected::ClosingParen, t, q))
            },
        },
        _ => Err(unexpected(Expected::Expression, t, p)),
    }
}

/// `factor := '-' factor | primary`
pub open spec fn spec_factor(t: Seq<Token>, p: int) -> Result<(ASTNode, int), ParseError>
    decreases t.len() - p, 1int,
{
    if peek(t, p) is Minus {
        match spec_factor(t, p + 1) {
            Err(e) => Err(e),
            Ok((f, q)) => Ok((ASTNode::UnaryOp(UnaryOperator::Neg, Box::new(f)), q)),
        }
    } else {
        spec_primary(t, p)
    }
}

/// The `(('*' | '/') factor)*` tail of a term, folded to the left onto `left`.
pub open spec fn spec_term_rest(t: Seq<Token>, q: int, left: ASTNode) -> Result<
    (ASTNode, int),
    ParseError,
>
    decreases t.len() - q, 2int,
{
    match multiplicative_op(peek(t, q)) {
        None => Ok((left, q)),
        Some(op) => match spec_factor(t, q + 1) {
            Err(e) => Err(e),
            Ok((r, q2)) => {
                let node = ASTNode::BinaryOp(op, Box::new(left), Box::new(r));
                if q < q2 <= t.len() {
                    spec_term_rest(t, q2, node)
                } else {
                    Ok((node, q2))
                }
            },
        },
    }
}

/// `term := factor (('*' | '/') factor)*`
pub open spec fn spec_term(t: Seq<Token>, p: int) -> Result<(ASTNode, int), ParseError>
    decreases t.len() - p, 3int,
{
    match spec_factor(t, p) {
        Err(e) => Err(e),
        Ok((l, q)) => if p < q <= t.len() {
            spec_term_rest(t, q, l)
        } else {
            Ok((l, q))
        },
    }
}

/// The `(('+' | '-') term)*` tail of an expression, folded to the left onto `left`.
pub open spec fn spec_expression_rest(t: Seq<Token>, q: int, left: ASTNode) -> Result<
    (ASTNode, int),
    ParseError,
>
    decreases t.len() - q, 4int,
{
    match additive_op(peek(t, q)) {
        None => Ok((left, q)),
        Some(op) => match spec_term(t, q + 1) {
            Err(e) => Err(e),
            Ok((r, q2)) => {
                let node = ASTNode::BinaryOp(op, Box::new(left), Box::new(r));
                if q < q2 <= t.len() {
                    spec_expression_rest(t, q2, node)
                } else {
                    Ok((node, q2))
                }
            },
        },
    }
}

/// `expression := term (('+' | '-') term)*`
pub open spec fn spec_expression(t: Seq<Token>, p: int) -> Result<(ASTNode, int), ParseError>
    decreases t.len() - p, 5int,
{
    match spec_term(t, p) {
        Err(e) => Err(e),
        Ok((l, q)) => if p < q <= t.len() {
            spec_expression_rest(t, q, l)
        } else {
            Ok((l, q))
        },
    }
}

/// `assignment := Identifier '=' expression`
pub open spec fn spec_assignment(t: Seq<Token>, p: int) -> Result<(ASTNode, int), ParseError> {
    match peek(t, p) {
        Token::Identifier(name) => if peek(t, p + 1) is Equals {
            match spec_expression(t, p + 2) {
                Err(e) => Err(e),
                Ok((e, q)) => Ok((ASTNode::Assignment(name, Box::new(e)), q)),
            }
        } else {
            Err(unexpected(Expected::Equals, t, p + 1))
        },
        _ => Err(unexpected(Expected::Statement, t, p)),
    }
}

/// `statement := assignment`, which starts with an identifier.
pub open spec fn spec_statement(t: Seq<Token>, p: int) -> Result<(ASTNode, int), ParseError> {
    if peek(t, p) is Identifier {
        spec_assignment(t, p)
    } else {
        Err(unexpected(Expected::Statement, t, p))
    }
}

/// `statement* EndOfInput` from position `p`, after the statements `acc`.
/// The end marker must be the last token; the end of the sequence also ends
/// the input.
pub open spec fn spec_program_from(t: Seq<Token>, p: int, acc: Seq<ASTNode>) -> Result<
    Seq<ASTNode>,
    ParseError,
>
    decreases t.len() - p,
{
    if peek(t, p) is EndOfInput {
        if 0 <= p && p + 1 < t.len() {
            Err(unexpected(Expected::EndOfInput, t, p + 1))
        } else {
            Ok(acc)
        }
    } else {
        match spec_statement(t, p) {
            Err(e) => Err(e),
            Ok((s, q)) => if p < q <= t.len() {
                spec_program_from(t, q, acc.push(s))
            } else {
                Ok(acc.push(s))
            },
        }
    }
}

/// The statements of a whole token sequence, `program := statement* EndOfInput`.
pub open spec fn spec_program(t: Seq<Token>) -> Result<Seq<ASTNode>, ParseError> {
    spec_program_from(t, 0, seq![])
}

/// A copy of the token at `pos`, or the end marker past the end.
fn token_at(tokens: &Vec<Token>, pos: usize) -> (r: Token)
    ensures
        r == peek(tokens@, pos as int),
{
    if pos >= tokens.len() {
        return Token::EndOfInput;
    }
    match &tokens[pos] {
        Token::Identifier(s) => Token::Identifier(s.clone()),
        Token::NumberLiteral(s) => Token::NumberLiteral(s.clone()),
        Token::Equals => Token::Equals,
        Token::Plus => Token::Plus,
        Token::Minus => Token::Minus,
        Token::Star => Token::Star,
        Token::Slash => Token::Slash,
        Token::LParen => Token::LParen,
        Token::RParen => Token::RParen,
        Token::LBrace => Token::LBrace,
        Token::RBrace => Token::RBrace,
        Token::Colon => Token::Colon,
        Token::Comma => Token::Comma,
        Token::EndOfInput => Token::EndOfInput,
    }
}

fn unexpected_at(expected: Expected, tokens: &Vec<Token>, pos: usize) -> (e: ParseError)
    ensures
        e == unexpected(expected, tokens@, pos as int),
{
    ParseError::UnexpectedToken { expected, found: token_at(tokens, pos), position: pos }
}

fn additive_at(tokens: &Vec<Token>, pos: usize) -> (r: Option<BinaryOperator>)
    ensures
        r == additive_op(peek(tokens@, pos as int)),
        r is Some ==> pos < tokens@.len() <= usize::MAX,
{
    if pos >= tokens.len() {
        return None;
    }
    match &tokens[pos] {
        Token::Plus => Some(BinaryOperator::Add),
        Token::Minus => Some(BinaryOperator::Sub),
        _ => None,
    }
}

fn multiplicative_at(tokens: &Vec<Token>, pos: usize) -> (r: Option<BinaryOperator>)
    ensures
        r == multiplicative_op(peek(tokens@, pos as int)),
        r is Some ==> pos < tokens@.len() <= usize::MAX,
{
    if pos >= tokens.len() {
        return None;
    }
    match &tokens[pos] {
        Token::Star => Some(BinaryOperator::Mul),
        Token::Slash => Some(BinaryOperator::Div),
        _ => None,
    }
}

/// Parses a primary expression at `pos`.
pub fn parse_primary(tokens: &Vec<Token>, pos: usize) -> (r: Result<(ASTNode, usize), ParseError>)
    requires
        pos <= tokens@.len(),
    ensures
        r matches Ok((n, q)) ==> pos < q <= tokens@.len() && spec_primary(tokens@, pos as int)
            == Ok::<(ASTNode, int), ParseError>((n, q as int)),
        r matches Err(e) ==> spec_primary(tokens@, pos as int) == Err::<(ASTNode, int), ParseError>(
            e,
        ),
    decreases tokens@.len() - pos, 0int,
{
    if pos >= tokens.len() {
        return Err(unexpected_at(Expected::Expression, tokens, pos));
    }
    match &tokens[pos] {
        Token::Identifier(name) => Ok((ASTNode::Identifier(name.clone()), pos + 1)),
        Token::NumberLiteral(digits) => Ok((ASTNode::Literal(digits.clone()), pos + 1)),
        Token::LParen => {
            let (e, q) = match parse_expression(tokens, pos + 1) {
                Ok(x) => x,
                Err(err) => return Err(err),
            };
            if q < tokens.len() {
                match &tokens[q] {
                    Token::RParen => return Ok((e, q + 1)),
                    Token::EndOfInput => return Err(ParseError::UnclosedParen { open_position: pos }),
                    _ => return Err(unexpected_at(Expected::ClosingParen, tokens, q)),
                }
            }
            Err(ParseError::UnclosedParen { open_position: pos })
        },
        _ => Err(unexpected_at(Expected::Expression, tokens, pos)),
    }
}

/// Parses a factor at `pos`: a primary expression under any number of unary minuses.
pub fn parse_factor(tokens: &Vec<Token>, pos: usize) -> (r: Result<(ASTNode, usize), ParseError>)
    requires
        pos <= tokens@.len(),
    ensures
        r matches Ok((n, q)) ==> pos < q <= tokens@.len() && spec_factor(tokens@, pos as int)
            == Ok::<(ASTNode, int), ParseError>((n, q as int)),
        r matches Err(e) ==> spec_factor(tokens@, pos as int) == Err::<(ASTNode, int), ParseError>(
            e,
        ),
    decreases tokens@.len() - pos, 1int,
{
    if pos < tokens.len() {
        if let Token::Minus = &tokens[pos] {
            return match parse_factor(tokens, pos + 1) {
                Ok((f, q)) => Ok((ASTNode::UnaryOp(UnaryOperator::Neg, Box::new(f)), q)),
                Err(e) => Err(e),
            };
        }
    }
    parse_primary(tokens, pos)
}

/// Parses a term at `pos`: factors joined by `*` and `/`, grouped to the left.
pub fn parse_term(tokens: &Vec<Token>, pos: usize) -> (r: Result<(ASTNode, usize), ParseError>)
    requires
        pos <= tokens@.len(),
    ensures
        r matches Ok((n, q)) ==> pos < q <= tokens@.len() && spec_term(tokens@, pos as int)
            == Ok::<(ASTNode, int), ParseError>((n, q as int)),
        r matches Err(e) ==> spec_term(tokens@, pos as int) == Err::<(ASTNode, int), ParseError>(
            e,
        ),
    decreases tokens@.len() - pos, 3int,
{
    let (mut node, mut q) = match parse_factor(tokens, pos) {
        Ok(x) => x,
        Err(e) => return Err(e),
    };
    loop
        invariant
            pos < q <= tokens@.len(),
            spec_term(tokens@, pos as int) == spec_term_rest(tokens@, q as int, node),
        decreases tokens@.len() - q,
    {
        let op = match multiplicative_at(tokens, q) {
            Some(op) => op,
            None => return Ok((node, q)),
        };
        let (r, q2) = match parse_factor(tokens, q + 1) {
            Ok(x) => x,
            Err(e) => return Err(e),
        };
        node = ASTNode::BinaryOp(op, Box::new(node), Box::new(r));
        q = q2;
    }
}

/// Parses an expression at `pos`: terms joined by `+` and `-`, grouped to the left.
pub fn parse_expression(tokens: &Vec<Token>, pos: usize) -> (r: Result<(ASTNode, usize), ParseError>)
    requires
        pos <= tokens@.len(),
    ensures
        r matches Ok((n, q)) ==> pos < q <= tokens@.len() && spec_expression(tokens@, pos as int)
            == Ok::<(ASTNode, int), ParseError>((n, q as int)),
        r matches Err(e) ==> spec_expression(tokens@, pos as int) == Err::<(ASTNode, int), ParseError>(
            e,
        ),
    decreases tokens@.len() - pos, 5int,
{
    let (mut node, mut q) = match parse_term(tokens, pos) {
        Ok(x) => x,
        Err(e) => return Err(e),
    };
    loop
        invariant
            pos < q <= tokens@.len(),
            spec_expression(tokens@, pos as int) == spec_expression_rest(tokens@, q as int, node),
        decreases tokens@.len() - q,
    {
        let op = match additive_at(tokens, q) {
            Some(op) => op,
            None => return Ok((node, q)),
        };
        let (r, q2) = match parse_term(tokens, q + 1) {
            Ok(x) => x,
            Err(e) => return Err(e),
        };
        node = ASTNode::BinaryOp(op, Box::new(node), Box::new(r));
        q = q2;
    }
}

/// Parses an assignment `name = expression` at `pos`.
pub fn parse_assignment(tokens: &Vec<Token>, pos: usize) -> (r: Result<(ASTNode, usize), ParseError>)
    requires
        pos <= tokens@.len(),
    ensures
        r matches Ok((n, q)) ==> pos < q <= tokens@.len() && spec_assignment(tokens@, pos as int)
            == Ok::<(ASTNode, int), ParseError>((n, q as int)),
        r matches Err(e) ==> spec_assignment(tokens@, pos as int) == Err::<(ASTNode, int), ParseError>(
            e,
        ),
{
    if pos >= tokens.len() {
        return Err(unexpected_at(Expected::Statement, tokens, pos));
    }
    let name = match &tokens[pos] {
        Token::Identifier(name) => name,
        _ => return Err(unexpected_at(Expected::Statement, tokens, pos)),
    };
    if pos + 1 >= tokens.len() {
        return Err(unexpected_at(Expected::Equals, tokens, pos + 1));
    }
    match &tokens[pos + 1] {
        Token::Equals => {},
        _ => return Err(unexpected_at(Expected::Equals, tokens, pos + 1)),
    }
    match parse_expression(tokens, pos + 2) {
        Ok((e, q)) => Ok((ASTNode::Assignment(name.clone(), Box::new(e)), q)),
        Err(e) => Err(e),
    }
}

/// Parses a statement at `pos`; a statement starts with an identifier.
pub fn parse_statement(tokens: &Vec<Token>, pos: usize) -> (r: Result<(ASTNode, usize), ParseError>)
    requires
        pos <= tokens@.len(),
    ensures
        r matches Ok((n, q)) ==> pos < q <= tokens@.len() && spec_statement(tokens@, pos as int)
            == Ok::<(ASTNode, int), ParseError>((n, q as int)),
        r matches Err(e) ==> spec_statement(tokens@, pos as int) == Err::<(ASTNode, int), ParseError>(
            e,
        ),
{
    if pos < tokens.len() {
        if let Token::Identifier(_) = &tokens[pos] {
            return parse_assignment(tokens, pos);
        }
    }
    Err(unexpected_at(Expected::Statement, tokens, pos))
}

/// Parses a whole program: statements up to the end of input, which is an
/// `EndOfInput` that must be the last token, or the end of the sequence.
pub fn parse_program(tokens: &Vec<Token>) -> (r: Result<ASTNode, ParseError>)
    ensures
        spec_program(tokens@) matches Ok(stmts) ==> r matches Ok(ASTNode::Program(v)) && v@
            == stmts,
        spec_program(tokens@) matches Err(e) ==> r == Err::<ASTNode, ParseError>(e),
{
    let mut stmts: Vec<ASTNode> = Vec::new();
    let mut pos: usize = 0;
    loop
        invariant
            pos <= tokens@.len(),
            spec_program(tokens@) == spec_program_from(tokens@, pos as int, stmts@),
        decreases tokens@.len() - pos,
    {
        if pos >= tokens.len() {
            return Ok(ASTNode::Program(stmts));
        }
        if let Token::EndOfInput = &tokens[pos] {
            if pos + 1 < tokens.len() {
                return Err(unexpected_at(Expected::EndOfInput, tokens, pos + 1));
            }
            return Ok(ASTNode::Program(stmts));
        }
        match parse_statement(tokens, pos) {
            Ok((s, q)) => {
                stmts.push(s);
                pos = q;
            },
            Err(e) => return Err(e),
        }
    }
}

/// Parses a token sequence into a `Program` node.
pub fn parse(tokens: &Vec<Token>) -> (r: Result<ASTNode, ParseError>)
    ensures
        spec_program(tokens@) matches Ok(stmts) ==> r matches Ok(ASTNode::Program(v)) && v@
            == stmts,
        spec_program(tokens@) matches Err(e) ==> r == Err::<ASTNode, ParseError>(e),
{
    parse_program(tokens)
}

} // verus!
