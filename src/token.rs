use vstd::prelude::*;
use vstd::std_specs::iter::IteratorSpec;

verus! {

/// A letter, digit or underscore: the characters that make up a word run.
pub open spec fn is_word_char(c: char) -> bool {
    ('a' <= c && c <= 'z') || ('A' <= c && c <= 'Z') || ('0' <= c && c <= '9') || c == '_'
}

pub open spec fn is_digit(c: char) -> bool {
    '0' <= c && c <= '9'
}

/// Whitespace separates tokens and never becomes one.
pub open spec fn is_space(c: char) -> bool {
    c == ' ' || c == '\t' || c == '\n' || c == '\r'
}

/// The single-character structural, arithmetic and assignment symbols.
pub open spec fn is_symbol(c: char) -> bool {
    c == '(' || c == ')' || c == '{' || c == '}' || c == ':' || c == ',' || c == '=' || c == '+'
        || c == '-' || c == '*' || c == '/'
}

/// The alphabet of the language.
pub open spec fn is_valid_char(c: char) -> bool {
    is_word_char(c) || is_space(c) || is_symbol(c)
}

pub fn word_char(c: char) -> (b: bool)
    ensures
        b == is_word_char(c),
{
    ('a' <= c && c <= 'z') || ('A' <= c && c <= 'Z') || ('0' <= c && c <= '9') || c == '_'
}

pub fn space_char(c: char) -> (b: bool)
    ensures
        b == is_space(c),
{
    c == ' ' || c == '\t' || c == '\n' || c == '\r'
}

pub fn symbol_char(c: char) -> (b: bool)
    ensures
        b == is_symbol(c),
{
    c == '(' || c == ')' || c == '{' || c == '}' || c == ':' || c == ',' || c == '=' || c == '+'
        || c == '-' || c == '*' || c == '/'
}

/// A lexical token. A number literal keeps its text (digits and at most one
/// decimal point) exactly as written, so no literal loses precision.
#[derive(Debug, Clone, PartialEq, Eq)]
pub enum Token {
    Identifier(String),
    NumberLiteral(String),
    Equals,
    Plus,
    Minus,
    Star,
    Slash,
    LParen,
    RParen,
    LBrace,
    RBrace,
    Colon,
    Comma,
    EndOfInput,
}

/// The mathematical model of a token: the text of a word becomes a `Seq<char>`.
pub enum TokenModel {
    Identifier(Seq<char>),
    NumberLiteral(Seq<char>),
    Equals,
    Plus,
    Minus,
    Star,
    Slash,
    LParen,
    RParen,
    LBrace,
    RBrace,
    Colon,
    Comma,
    EndOfInput,
}

impl View for Token {
    type V = TokenModel;

    open spec fn view(&self) -> TokenModel {
        match self {
            Token::Identifier(s) => TokenModel::Identifier(s@),
            Token::NumberLiteral(s) => TokenModel::NumberLiteral(s@),
            Token::Equals => TokenModel::Equals,
            Token::Plus => TokenModel::Plus,
            Token::Minus => TokenModel::Minus,
            Token::Star => TokenModel::Star,
            Token::Slash => TokenModel::Slash,
            Token::LParen => TokenModel::LParen,
            Token::RParen => TokenModel::RParen,
            Token::LBrace => TokenModel::LBrace,
            Token::RBrace => TokenModel::RBrace,
            Token::Colon => TokenModel::Colon,
            Token::Comma => TokenModel::Comma,
            Token::EndOfInput => TokenModel::EndOfInput,
        }
    }
}

/// The token that a symbol character stands for.
pub open spec fn symbol_token(c: char) -> TokenModel {
    if c == '=' {
        TokenModel::Equals
    } else if c == '+' {
        TokenModel::Plus
    } else if c == '-' {
        TokenModel::Minus
    } else if c == '*' {
        TokenModel::Star
    } else if c == '/' {
        TokenModel::Slash
    } else if c == '(' {
        TokenModel::LParen
    } else if c == ')' {
        TokenModel::RParen
    } else if c == '{' {
        TokenModel::LBrace
    } else if c == '}' {
        TokenModel::RBrace
    } else if c == ':' {
        TokenModel::Colon
    } else {
        TokenModel::Comma
    }
}

/// The number of decimal points in `w`.
pub open spec fn dot_count(w: Seq<char>) -> nat
    decreases w.len(),
{
    if w.len() == 0 {
        0
    } else {
        dot_count(w.drop_last()) + if w.last() == '.' {
            1nat
        } else {
            0nat
        }
    }
}

/// A number literal: decimal digits, starting with a digit, with at most one
/// decimal point.
pub open spec fn is_number_text(w: Seq<char>) -> bool {
    &&& w.len() > 0
    &&& is_digit(w[0])
    &&& forall|i: int| 0 <= i < w.len() ==> is_digit(#[trigger] w[i]) || w[i] == '.'
    &&& dot_count(w) <= 1
}

/// A run that starts like a number and holds a decimal point, but is not a
/// number literal (two points, or a letter beside a point).
pub open spec fn is_malformed_number(w: Seq<char>) -> bool {
    &&& w.len() > 0
    &&& is_digit(w[0])
    &&& dot_count(w) >= 1
    &&& !is_number_text(w)
}

/// The token that a lexeme (a run or a single symbol) becomes: a lone symbol
/// is its symbol token, a number literal a number, any other run a name.
pub open spec fn classify_spec(w: Seq<char>) -> TokenModel {
    if w.len() == 1 && is_symbol(w[0]) {
        symbol_token(w[0])
    } else if is_number_text(w) {
        TokenModel::NumberLiteral(w)
    } else {
        TokenModel::Identifier(w)
    }
}

/// Tells whether `w` is a number literal, and whether it holds a decimal point.
fn number_shape(w: &str) -> (r: (bool, bool))
    ensures
        r.0 == is_number_text(w@),
        r.1 == (dot_count(w@) >= 1),
{
    broadcast use vstd::string::axiom_spec_iter, vstd::string::next_postcondition;

    let n = w.unicode_len();
    let mut chars = w.chars();
    let mut all_numeric = true;
    let mut starts_with_digit = false;
    let mut dots: usize = 0;
    let mut i: usize = 0;
    proof {
        assert(w@.subrange(0, 0) =~= Seq::<char>::empty());
        assert(w@.subrange(0, n as int) =~= w@);
    }
    while i < n
        invariant
            n == w@.len(),
            0 <= i <= n,
            chars.obeys_prophetic_iter_laws(),
            chars.remaining() == w@.subrange(i as int, n as int),
            dots == dot_count(w@.subrange(0, i as int)),
            dots <= i,
            starts_with_digit == (i > 0 && is_digit(w@[0])),
            all_numeric == forall|j: int| 0 <= j < i ==> is_digit(#[trigger] w@[j]) || w@[j] == '.',
        ensures
            i == n,
        decreases n - i,
    {
        let c = match chars.next() {
            Some(c) => c,
            None => break,
        };
        proof {
            assert(c == w@[i as int]);
            assert(w@.subrange(i as int, n as int).drop_first() =~= w@.subrange(i + 1, n as int));
            assert(w@.subrange(0, i + 1).drop_last() =~= w@.subrange(0, i as int));
        }
        if i == 0 {
            starts_with_digit = '0' <= c && c <= '9';
        }
        if c == '.' {
            dots += 1;
        } else if !('0' <= c && c <= '9') {
            all_numeric = false;
        }
        i += 1;
    }
    proof {
        assert(w@.subrange(0, n as int) =~= w@);
    }
    (starts_with_digit && all_numeric && dots <= 1, dots >= 1)
}

/// Tells whether a run is a malformed number.
pub fn malformed_number(w: &str) -> (b: bool)
    ensures
        b == is_malformed_number(w@),
{
    let (number, dotted) = number_shape(w);
    let n = w.unicode_len();
    if n == 0 {
        return false;
    }
    let c = w.get_char(0);
    ('0' <= c && c <= '9') && dotted && !number
}

/// The source text of a token; the end marker has none.
pub open spec fn token_text(t: TokenModel) -> Seq<char> {
    match t {
        TokenModel::Identifier(s) => s,
        TokenModel::NumberLiteral(s) => s,
        TokenModel::Equals => seq!['='],
        TokenModel::Plus => seq!['+'],
        TokenModel::Minus => seq!['-'],
        TokenModel::Star => seq!['*'],
        TokenModel::Slash => seq!['/'],
        TokenModel::LParen => seq!['('],
        TokenModel::RParen => seq![')'],
        TokenModel::LBrace => seq!['{'],
        TokenModel::RBrace => seq!['}'],
        TokenModel::Colon => seq![':'],
        TokenModel::Comma => seq![','],
        TokenModel::EndOfInput => seq![],
    }
}

/// Turns one lexeme into its token.
pub fn classify(w: &String) -> (t: Token)
    ensures
        t@ == classify_spec(w@),
{
    let s = w.as_str();
    let n = s.unicode_len();
    if n == 1 {
        let c = s.get_char(0);
        if symbol_char(c) {
            return if c == '=' {
                Token::Equals
            } else if c == '+' {
                Token::Plus
            } else if c == '-' {
                Token::Minus
            } else if c == '*' {
                Token::Star
            } else if c == '/' {
                Token::Slash
            } else if c == '(' {
                Token::LParen
            } else if c == ')' {
                Token::RParen
            } else if c == '{' {
                Token::LBrace
            } else if c == '}' {
                Token::RBrace
            } else if c == ':' {
                Token::Colon
            } else {
                Token::Comma
            };
        }
    }
    if number_shape(s).0 {
        Token::NumberLiteral(w.clone())
    } else {
        Token::Identifier(w.clone())
    }
}

impl Token {
    /// The source text of the token.
    pub fn text(&self) -> (r: &str)
        ensures
            r@ == token_text(self@),
    {
        match self {
            Token::Identifier(s) => s.as_str(),
            Token::NumberLiteral(s) => s.as_str(),
            Token::Equals => {
                proof {
                    reveal_strlit("=");
                }
                "="
            },
            Token::Plus => {
                proof {
                    reveal_strlit("+");
                }
                "+"
            },
            Token::Minus => {
                proof {
                    reveal_strlit("-");
                }
                "-"
            },
            Token::Star => {
                proof {
                    reveal_strlit("*");
                }
                "*"
            },
            Token::Slash => {
                proof {
                    reveal_strlit("/");
                }
                "/"
            },
            Token::LParen => {
                proof {
                    reveal_strlit("(");
                }
                "("
            },
            Token::RParen => {
                proof {
                    reveal_strlit(")");
                }
                ")"
            },
            Token::LBrace => {
                proof {
                    reveal_strlit("{");
                }
                "{"
            },
            Token::RBrace => {
                proof {
                    reveal_strlit("}");
                }
                "}"
            },
            Token::Colon => {
                proof {
                    reveal_strlit(":");
                }
                ":"
            },
            Token::Comma => {
                proof {
                    reveal_strlit(",");
                }
                ","
            },
            Token::EndOfInput => {
                proof {
                    reveal_strlit("");
                }
                ""
            },
        }
    }
}

} // verus!
