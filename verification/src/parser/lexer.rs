//! Tokens of the Cypher subset.

use vstd::prelude::*;
use vstd::string::StrSliceExecFns;

verus! {

/// Why a query text is no query.
#[derive(Debug)]
pub enum ParseError {
    /// The text does not follow the grammar.
    InvalidSyntax(String),
    /// The text uses a feature that is not implemented.
    UnsupportedFeature(String),
}

/// A token. Keywords are identifiers; the parser tells them apart.
#[derive(Debug)]
pub enum Token {
    Ident(String),
    /// A number written with digits only.
    Integer(String),
    /// A number with a fraction or an exponent.
    Float(String),
    /// A quoted string, without its quotes.
    Text(String),
    /// `$name`, without the dollar sign.
    Param(String),
    LParen,
    RParen,
    LBracket,
    RBracket,
    LBrace,
    RBrace,
    Colon,
    Comma,
    Dot,
    Semicolon,
    Star,
    Plus,
    Minus,
    Slash,
    Percent,
    Eq,
    Neq,
    Lt,
    Gt,
    Lte,
    Gte,
}

/// Model of a token.
pub enum TokenView {
    Ident(Seq<char>),
    Integer(Seq<char>),
    Float(Seq<char>),
    Text(Seq<char>),
    Param(Seq<char>),
    LParen,
    RParen,
    LBracket,
    RBracket,
    LBrace,
    RBrace,
    Colon,
    Comma,
    Dot,
    Semicolon,
    Star,
    Plus,
    Minus,
    Slash,
    Percent,
    Eq,
    Neq,
    Lt,
    Gt,
    Lte,
    Gte,
}

impl View for Token {
    type V = TokenView;

    open spec fn view(&self) -> TokenView {
        match self {
            Token::Ident(s) => TokenView::Ident(s@),
            Token::Integer(s) => TokenView::Integer(s@),
            Token::Float(s) => TokenView::Float(s@),
            Token::Text(s) => TokenView::Text(s@),
            Token::Param(s) => TokenView::Param(s@),
            Token::LParen => TokenView::LParen,
            Token::RParen => TokenView::RParen,
            Token::LBracket => TokenView::LBracket,
            Token::RBracket => TokenView::RBracket,
            Token::LBrace => TokenView::LBrace,
            Token::RBrace => TokenView::RBrace,
            Token::Colon => TokenView::Colon,
            Token::Comma => TokenView::Comma,
            Token::Dot => TokenView::Dot,
            Token::Semicolon => TokenView::Semicolon,
            Token::Star => TokenView::Star,
            Token::Plus => TokenView::Plus,
            Token::Minus => TokenView::Minus,
            Token::Slash => TokenView::Slash,
            Token::Percent => TokenView::Percent,
            Token::Eq => TokenView::Eq,
            Token::Neq => TokenView::Neq,
            Token::Lt => TokenView::Lt,
            Token::Gt => TokenView::Gt,
            Token::Lte => TokenView::Lte,
            Token::Gte => TokenView::Gte,
        }
    }
}

/// The models of a list of tokens.
pub open spec fn tokens_view(ts: Seq<Token>) -> Seq<TokenView> {
    ts.map_values(|t: Token| t@)
}

/// Blank, tab, line feed or carriage return.
pub open spec fn is_space(c: char) -> bool {
    c == ' ' || c == '\t' || c == '\n' || c == '\r'
}

/// An ASCII letter.
pub open spec fn is_letter(c: char) -> bool {
    ('a' <= c && c <= 'z') || ('A' <= c && c <= 'Z')
}

/// An ASCII digit.
pub open spec fn is_digit_char(c: char) -> bool {
    '0' <= c && c <= '9'
}

/// A character that continues an identifier: letter, digit or underscore.
pub open spec fn is_ident_char(c: char) -> bool {
    is_letter(c) || is_digit_char(c) || c == '_'
}

/// The first position from `pos` on that holds no blank.
pub open spec fn space_end(cs: Seq<char>, pos: int) -> int
    decreases cs.len() - pos,
{
    if 0 <= pos < cs.len() && is_space(cs[pos]) {
        space_end(cs, pos + 1)
    } else {
        pos
    }
}

/// The first position from `pos` on that does not continue an identifier.
pub open spec fn ident_end(cs: Seq<char>, pos: int) -> int
    decreases cs.len() - pos,
{
    if 0 <= pos < cs.len() && is_ident_char(cs[pos]) {
        ident_end(cs, pos + 1)
    } else {
        pos
    }
}

/// The first position from `pos` on that holds no digit.
pub open spec fn digits_end(cs: Seq<char>, pos: int) -> int
    decreases cs.len() - pos,
{
    if 0 <= pos < cs.len() && is_digit_char(cs[pos]) {
        digits_end(cs, pos + 1)
    } else {
        pos
    }
}

/// The first position from `pos` on that holds the quote `q`, or the length
/// of the text.
pub open spec fn quote_end(cs: Seq<char>, pos: int, q: char) -> int
    decreases cs.len() - pos,
{
    if 0 <= pos < cs.len() && cs[pos] != q {
        quote_end(cs, pos + 1, q)
    } else {
        pos
    }
}

/// Where the number that starts at `pos` ends, and whether it has a
/// fraction or an exponent: digits, then optionally a point and digits, then
/// optionally `e` or `E`, an optional sign and digits.
pub open spec fn number_end(cs: Seq<char>, pos: int) -> (int, bool) {
    let whole = digits_end(cs, pos);
    let (after_fraction, has_fraction) = if whole + 1 < cs.len() && cs[whole] == '.'
        && is_digit_char(cs[whole + 1]) {
        (digits_end(cs, whole + 1), true)
    } else {
        (whole, false)
    };
    let a = after_fraction;
    if a < cs.len() && (cs[a] == 'e' || cs[a] == 'E') {
        let d = if a + 1 < cs.len() && (cs[a + 1] == '+' || cs[a + 1] == '-') {
            a + 2
        } else {
            a + 1
        };
        if d < cs.len() && is_digit_char(cs[d]) {
            (digits_end(cs, d), true)
        } else {
            (a, has_fraction)
        }
    } else {
        (a, has_fraction)
    }
}

/// The token that starts at `pos`, where a character that is no blank
/// stands, and the position behind it; nothing where no token starts.
pub open spec fn token_at(cs: Seq<char>, pos: int) -> Option<(TokenView, int)> {
    let c = cs[pos];
    let next = if pos + 1 < cs.len() {
        Some(cs[pos + 1])
    } else {
        None
    };
    if is_letter(c) {
        Some((TokenView::Ident(cs.subrange(pos, ident_end(cs, pos))), ident_end(cs, pos)))
    } else if is_digit_char(c) {
        let (end, float) = number_end(cs, pos);
        if float {
            Some((TokenView::Float(cs.subrange(pos, end)), end))
        } else {
            Some((TokenView::Integer(cs.subrange(pos, end)), end))
        }
    } else if c == '\'' || c == '"' {
        let end = quote_end(cs, pos + 1, c);
        if end < cs.len() {
            Some((TokenView::Text(cs.subrange(pos + 1, end)), end + 1))
        } else {
            None
        }
    } else if c == '$' {
        if next is Some && is_letter(next->0) {
            Some((TokenView::Param(cs.subrange(pos + 1, ident_end(cs, pos + 1))), ident_end(cs, pos + 1)))
        } else {
            None
        }
    } else if c == '(' {
        Some((TokenView::LParen, pos + 1))
    } else if c == ')' {
        Some((TokenView::RParen, pos + 1))
    } else if c == '[' {
        Some((TokenView::LBracket, pos + 1))
    } else if c == ']' {
        Some((TokenView::RBracket, pos + 1))
    } else if c == '{' {
        Some((TokenView::LBrace, pos + 1))
    } else if c == '}' {
        Some((TokenView::RBrace, pos + 1))
    } else if c == ':' {
        Some((TokenView::Colon, pos + 1))
    } else if c == ',' {
        Some((TokenView::Comma, pos + 1))
    } else if c == '.' {
        Some((TokenView::Dot, pos + 1))
    } else if c == ';' {
        Some((TokenView::Semicolon, pos + 1))
    } else if c == '*' {
        Some((TokenView::Star, pos + 1))
    } else if c == '+' {
        Some((TokenView::Plus, pos + 1))
    } else if c == '-' {
        Some((TokenView::Minus, pos + 1))
    } else if c == '/' {
        Some((TokenView::Slash, pos + 1))
    } else if c == '%' {
        Some((TokenView::Percent, pos + 1))
    } else if c == '=' {
        Some((TokenView::Eq, pos + 1))
    } else if c == '!' {
        if next == Some('=') {
            Some((TokenView::Neq, pos + 2))
        } else {
            None
        }
    } else if c == '<' {
        if next == Some('>') {
            Some((TokenView::Neq, pos + 2))
        } else if next == Some('=') {
            Some((TokenView::Lte, pos + 2))
        } else {
            Some((TokenView::Lt, pos + 1))
        }
    } else if c == '>' {
        if next == Some('=') {
            Some((TokenView::Gte, pos + 2))
        } else {
            Some((TokenView::Gt, pos + 1))
        }
    } else {
        None
    }
}

/// The tokens of the text from `pos` on; nothing where a character starts
/// no token or a string is not closed.
pub open spec fn lex_from(cs: Seq<char>, pos: int) -> Option<Seq<TokenView>>
    decreases cs.len() - pos,
{
    let p = space_end(cs, pos);
    if p < pos || p >= cs.len() {
        Some(Seq::empty())
    } else {
        match token_at(cs, p) {
            None => None,
            Some((t, end)) => if end <= p || end > cs.len() {
                None
            } else {
                match lex_from(cs, end) {
                    None => None,
                    Some(rest) => Some(seq![t] + rest),
                }
            },
        }
    }
}

/// The tokens of a text.
pub open spec fn lex(cs: Seq<char>) -> Option<Seq<TokenView>> {
    lex_from(cs, 0)
}

fn char_is_space(c: char) -> (r: bool)
    ensures
        r == is_space(c),
{
    c == ' ' || c == '\t' || c == '\n' || c == '\r'
}

fn char_is_letter(c: char) -> (r: bool)
    ensures
        r == is_letter(c),
{
    ('a' <= c && c <= 'z') || ('A' <= c && c <= 'Z')
}

fn char_is_digit(c: char) -> (r: bool)
    ensures
        r == is_digit_char(c),
{
    '0' <= c && c <= '9'
}

fn char_is_ident(c: char) -> (r: bool)
    ensures
        r == is_ident_char(c),
{
    char_is_letter(c) || char_is_digit(c) || c == '_'
}

fn skip_space(cs: &Vec<char>, pos: usize) -> (r: usize)
    requires
        pos <= cs.len(),
    ensures
        r == space_end(cs@, pos as int),
        pos <= r <= cs.len(),
{
    let mut i = pos;
    while i < cs.len() && char_is_space(cs[i])
        invariant
            pos <= i <= cs.len(),
            space_end(cs@, pos as int) == space_end(cs@, i as int),
        decreases cs.len() - i,
    {
        i += 1;
    }
    i
}

fn skip_ident(cs: &Vec<char>, pos: usize) -> (r: usize)
    requires
        pos <= cs.len(),
    ensures
        r == ident_end(cs@, pos as int),
        pos <= r <= cs.len(),
{
    let mut i = pos;
    while i < cs.len() && char_is_ident(cs[i])
        invariant
            pos <= i <= cs.len(),
            ident_end(cs@, pos as int) == ident_end(cs@, i as int),
        decreases cs.len() - i,
    {
        i += 1;
    }
    i
}

fn skip_digits(cs: &Vec<char>, pos: usize) -> (r: usize)
    requires
        pos <= cs.len(),
    ensures
        r == digits_end(cs@, pos as int),
        pos <= r <= cs.len(),
{
    let mut i = pos;
    while i < cs.len() && char_is_digit(cs[i])
        invariant
            pos <= i <= cs.len(),
            digits_end(cs@, pos as int) == digits_end(cs@, i as int),
        decreases cs.len() - i,
    {
        i += 1;
    }
    i
}

fn skip_to_quote(cs: &Vec<char>, pos: usize, q: char) -> (r: usize)
    requires
        pos <= cs.len(),
    ensures
        r == quote_end(cs@, pos as int, q),
        pos <= r <= cs.len(),
{
    let mut i = pos;
    while i < cs.len() && cs[i] != q
        invariant
            pos <= i <= cs.len(),
            quote_end(cs@, pos as int, q) == quote_end(cs@, i as int, q),
        decreases cs.len() - i,
    {
        i += 1;
    }
    i
}

fn skip_number(cs: &Vec<char>, pos: usize) -> (r: (usize, bool))
    requires
        pos < cs.len(),
    ensures
        (r.0 as int, r.1) == number_end(cs@, pos as int),
        pos <= r.0 <= cs.len(),
{
    let whole = skip_digits(cs, pos);
    let mut end = whole;
    let mut float = false;
    if whole < cs.len() - 1 && cs[whole] == '.' && char_is_digit(cs[whole + 1]) {
        end = skip_digits(cs, whole + 1);
        float = true;
    }
    if end < cs.len() && (cs[end] == 'e' || cs[end] == 'E') {
        let d = if end < cs.len() - 1 && (cs[end + 1] == '+' || cs[end + 1] == '-') {
            end + 2
        } else {
            end + 1
        };
        if d < cs.len() && char_is_digit(cs[d]) {
            end = skip_digits(cs, d);
            float = true;
        }
    }
    (end, float)
}

/// The characters of a text.
pub fn chars_of(input: &str) -> (r: Vec<char>)
    ensures
        r@ == input@,
{
    let n = input.unicode_len();
    let mut out: Vec<char> = Vec::new();
    let mut i: usize = 0;
    while i < n
        invariant
            n == input@.len(),
            0 <= i <= n,
            out@ == input@.subrange(0, i as int),
        decreases n - i,
    {
        out.push(input.get_char(i));
        i += 1;
        assert(out@ =~= input@.subrange(0, i as int));
    }
    assert(input@.subrange(0, n as int) =~= input@);
    out
}

/// The token that starts at `pos`.
fn read_token(input: &str, cs: &Vec<char>, pos: usize) -> (r: Option<(Token, usize)>)
    requires
        cs@ == input@,
        pos < cs.len(),
    ensures
        r.is_some() == token_at(cs@, pos as int).is_some(),
        r matches Some(t) ==> token_at(cs@, pos as int) == Some((t.0@, t.1 as int)) && t.1
            <= cs.len(),
{
    let c = cs[pos];
    let has_next = pos < cs.len() - 1;
    if char_is_letter(c) {
        let end = skip_ident(cs, pos);
        Some((Token::Ident(input.substring_char(pos, end).to_owned()), end))
    } else if char_is_digit(c) {
        let (end, float) = skip_number(cs, pos);
        let text = input.substring_char(pos, end).to_owned();
        if float {
            Some((Token::Float(text), end))
        } else {
            Some((Token::Integer(text), end))
        }
    } else if c == '\'' || c == '"' {
        let end = skip_to_quote(cs, pos + 1, c);
        if end < cs.len() {
            Some((Token::Text(input.substring_char(pos + 1, end).to_owned()), end + 1))
        } else {
            None
        }
    } else if c == '$' {
        if has_next && char_is_letter(cs[pos + 1]) {
            let end = skip_ident(cs, pos + 1);
            Some((Token::Param(input.substring_char(pos + 1, end).to_owned()), end))
        } else {
            None
        }
    } else if c == '(' {
        Some((Token::LParen, pos + 1))
    } else if c == ')' {
        Some((Token::RParen, pos + 1))
    } else if c == '[' {
        Some((Token::LBracket, pos + 1))
    } else if c == ']' {
        Some((Token::RBracket, pos + 1))
    } else if c == '{' {
        Some((Token::LBrace, pos + 1))
    } else if c == '}' {
        Some((Token::RBrace, pos + 1))
    } else if c == ':' {
        Some((Token::Colon, pos + 1))
    } else if c == ',' {
        Some((Token::Comma, pos + 1))
    } else if c == '.' {
        Some((Token::Dot, pos + 1))
    } else if c == ';' {
        Some((Token::Semicolon, pos + 1))
    } else if c == '*' {
        Some((Token::Star, pos + 1))
    } else if c == '+' {
        Some((Token::Plus, pos + 1))
    } else if c == '-' {
        Some((Token::Minus, pos + 1))
    } else if c == '/' {
        Some((Token::Slash, pos + 1))
    } else if c == '%' {
        Some((Token::Percent, pos + 1))
    } else if c == '=' {
        Some((Token::Eq, pos + 1))
    } else if c == '!' {
        if has_next && cs[pos + 1] == '=' {
            Some((Token::Neq, pos + 2))
        } else {
            None
        }
    } else if c == '<' {
        if has_next && cs[pos + 1] == '>' {
            Some((Token::Neq, pos + 2))
        } else if has_next && cs[pos + 1] == '=' {
            Some((Token::Lte, pos + 2))
        } else {
            Some((Token::Lt, pos + 1))
        }
    } else if c == '>' {
        if has_next && cs[pos + 1] == '=' {
            Some((Token::Gte, pos + 2))
        } else {
            Some((Token::Gt, pos + 1))
        }
    } else {
        None
    }
}

/// Splits a query text into tokens.
pub fn tokenize(input: &str) -> (r: Result<Vec<Token>, ParseError>)
    ensures
        r.is_ok() == lex(input@).is_some(),
        r matches Ok(ts) ==> lex(input@) == Some(tokens_view(ts@)),
        r matches Err(e) ==> e is InvalidSyntax,
{
    let cs = chars_of(input);
    let mut out: Vec<Token> = Vec::new();
    let mut pos: usize = 0;
    let ghost whole = lex_from(cs@, 0);
    assert(tokens_view(out@) =~= Seq::empty());
    loop
        invariant
            cs@ == input@,
            pos <= cs.len(),
            whole == lex_from(cs@, 0),
            whole == match lex_from(cs@, pos as int) {
                Some(rest) => Some(tokens_view(out@) + rest),
                None => None,
            },
        decreases cs.len() - pos,
    {
        let p = skip_space(&cs, pos);
        if p >= cs.len() {
            assert(tokens_view(out@) + Seq::empty() =~= tokens_view(out@));
            return Ok(out);
        }
        match read_token(input, &cs, p) {
            None => {
                return Err(ParseError::InvalidSyntax("unexpected character".to_owned()));
            },
            Some((token, end)) => {
                if end <= p {
                    return Err(ParseError::InvalidSyntax("empty token".to_owned()));
                }
                let ghost before = tokens_view(out@);
                let ghost t = token@;
                out.push(token);
                proof {
                    assert(tokens_view(out@) =~= before.push(t));
                    match lex_from(cs@, end as int) {
                        Some(rest) => {
                            assert(before + (seq![t] + rest) =~= before.push(t) + rest);
                        },
                        None => {},
                    }
                }
                pos = end;
            },
        }
    }
}

} // verus!
