//! The grammar of the Cypher subset, as functions from a token list and a
//! position to the tree that starts there and the position behind it.
//!
//! ```text
//! query     := statement [";"]
//! statement := MATCH patterns [WHERE expr] (RETURN return | write [RETURN return])
//!            | write
//! write     := CREATE patterns | [DETACH] DELETE exprs | SET assignments
//! pattern   := node (edge node)*
//! node      := "(" [name] [":" name] [properties] ")"
//! edge      := ["<"] "-" ["[" [name] [":" name] [properties] "]"] "-" [">"]
//! return    := item ("," item)* [ORDER BY sort ("," sort)*] [LIMIT ["-"] integer]
//! expr      := and (OR and)*
//! and       := not (AND not)*
//! not       := NOT not | comparison
//! comparison:= additive [("=" | "<>" | "<" | ">" | "<=" | ">=") additive]
//! additive  := term (("+" | "-") term)*
//! term      := unary (("*" | "/" | "%") unary)*
//! unary     := ("-" | "+") unary | postfix
//! postfix   := primary ("." name)*
//! primary   := literal | "$" name | name "(" ["*" | exprs] ")" | name | "(" expr ")"
//! ```

use crate::json::JsonView;
use crate::parser::ast::{
    BinaryOperator, Direction, EdgePatternView, ElementView, ExprView, LiteralView, NodeView,
    PropertyView, QueryView, ReturnItemView, ReturnView, SetItemView, SortItemView, UnaryOperator,
    WriteView,
};
use crate::parser::lexer::TokenView;
use crate::storage::codec::number_decoding;
use crate::text::parse_text_spec;
use vstd::prelude::*;

verus! {

/// A letter in upper case; any other character as it is.
pub open spec fn upper_char(c: char) -> char {
    if 'a' <= c && c <= 'z' {
        ((c as u8) - 32) as u8 as char
    } else {
        c
    }
}

/// A text in upper case.
pub open spec fn upper(t: Seq<char>) -> Seq<char> {
    t.map_values(|c: char| upper_char(c))
}

/// The token at `pos`, if there is one.
pub open spec fn tok(ts: Seq<TokenView>, pos: int) -> Option<TokenView> {
    if 0 <= pos < ts.len() {
        Some(ts[pos])
    } else {
        None
    }
}

/// The token at `pos` is the keyword `kw`, in any case.
#[verifier::opaque]
pub open spec fn is_kw(ts: Seq<TokenView>, pos: int, kw: Seq<char>) -> bool {
    tok(ts, pos) matches Some(TokenView::Ident(t)) && upper(t) == kw
}

/// A word that cannot name a variable.
#[verifier::opaque]
pub open spec fn reserved(t: Seq<char>) -> bool {
    let u = upper(t);
    u == "MATCH"@ || u == "WHERE"@ || u == "RETURN"@ || u == "ORDER"@ || u == "BY"@ || u == "ASC"@
        || u == "DESC"@ || u == "LIMIT"@ || u == "CREATE"@ || u == "DELETE"@ || u == "DETACH"@ || u
        == "SET"@ || u == "AND"@ || u == "OR"@ || u == "NOT"@ || u == "NULL"@ || u == "TRUE"@ || u
        == "FALSE"@ || u == "AS"@
}

/// The name at `pos`: an identifier that is no reserved word.
pub open spec fn name_at(ts: Seq<TokenView>, pos: int) -> Option<Seq<char>> {
    match tok(ts, pos) {
        Some(TokenView::Ident(t)) => if reserved(t) {
            None
        } else {
            Some(t)
        },
        _ => None,
    }
}

/// The integer that a string of digits denotes, if it fits 63 bits.
pub open spec fn integer_of(t: Seq<char>) -> Option<i64> {
    match parse_text_spec(t) {
        Some(u) => if u <= 0x7fff_ffff_ffff_ffffu64 {
            Some(u as i64)
        } else {
            None
        },
        None => None,
    }
}

/// The literal that a number with a fraction or an exponent denotes.
pub open spec fn float_of(t: Seq<char>) -> Option<LiteralView> {
    match number_decoding(t) {
        Some(JsonView::Float(c)) => Some(LiteralView::Float(c)),
        Some(JsonView::Int(i)) => Some(LiteralView::Integer(i)),
        _ => None,
    }
}

/// A parsed expression and the position behind it.
pub type Parsed<T> = Option<(T, int)>;

/// `left op right`.
pub open spec fn binary(left: ExprView, op: BinaryOperator, right: ExprView) -> ExprView {
    ExprView::BinaryOp { left: Box::new(left), op, right: Box::new(right) }
}

/// `op expr`.
pub open spec fn unary(op: UnaryOperator, expr: ExprView) -> ExprView {
    ExprView::UnaryOp { op, expr: Box::new(expr) }
}

/// The comparison operator that a token is.
pub open spec fn comparison_op(t: Option<TokenView>) -> Option<BinaryOperator> {
    match t {
        Some(TokenView::Eq) => Some(BinaryOperator::Eq),
        Some(TokenView::Neq) => Some(BinaryOperator::Neq),
        Some(TokenView::Lt) => Some(BinaryOperator::Lt),
        Some(TokenView::Gt) => Some(BinaryOperator::Gt),
        Some(TokenView::Lte) => Some(BinaryOperator::Lte),
        Some(TokenView::Gte) => Some(BinaryOperator::Gte),
        _ => None,
    }
}

/// The additive operator that a token is.
pub open spec fn additive_op(t: Option<TokenView>) -> Option<BinaryOperator> {
    match t {
        Some(TokenView::Plus) => Some(BinaryOperator::Add),
        Some(TokenView::Minus) => Some(BinaryOperator::Subtract),
        _ => None,
    }
}

/// The multiplicative operator that a token is.
pub open spec fn term_op(t: Option<TokenView>) -> Option<BinaryOperator> {
    match t {
        Some(TokenView::Star) => Some(BinaryOperator::Multiply),
        Some(TokenView::Slash) => Some(BinaryOperator::Divide),
        Some(TokenView::Percent) => Some(BinaryOperator::Modulo),
        _ => None,
    }
}

/// `expr := and (OR and)*`
pub open spec fn sp_expr(ts: Seq<TokenView>, pos: int) -> Parsed<ExprView>
    decreases ts.len() - pos, 20int,
{
    if pos < 0 || pos >= ts.len() {
        None
    } else {
        match sp_and(ts, pos) {
            Some((left, p)) => if pos < p && p <= ts.len() {
                sp_or_rest(ts, p, left)
            } else {
                None
            },
            None => None,
        }
    }
}

/// The `(OR and)*` behind `left`.
pub open spec fn sp_or_rest(ts: Seq<TokenView>, pos: int, left: ExprView) -> Parsed<ExprView>
    decreases ts.len() - pos, 19int,
{
    if pos < 0 || pos >= ts.len() || !is_kw(ts, pos, "OR"@) {
        Some((left, pos))
    } else {
        match sp_and(ts, pos + 1) {
            Some((right, p)) => if pos < p && p <= ts.len() {
                sp_or_rest(ts, p, binary(left, BinaryOperator::Or, right))
            } else {
                None
            },
            None => None,
        }
    }
}

/// `and := not (AND not)*`
pub open spec fn sp_and(ts: Seq<TokenView>, pos: int) -> Parsed<ExprView>
    decreases ts.len() - pos, 18int,
{
    if pos < 0 || pos >= ts.len() {
        None
    } else {
        match sp_not(ts, pos) {
            Some((left, p)) => if pos < p && p <= ts.len() {
                sp_and_rest(ts, p, left)
            } else {
                None
            },
            None => None,
        }
    }
}

/// The `(AND not)*` behind `left`.
pub open spec fn sp_and_rest(ts: Seq<TokenView>, pos: int, left: ExprView) -> Parsed<ExprView>
    decreases ts.len() - pos, 17int,
{
    if pos < 0 || pos >= ts.len() || !is_kw(ts, pos, "AND"@) {
        Some((left, pos))
    } else {
        match sp_not(ts, pos + 1) {
            Some((right, p)) => if pos < p && p <= ts.len() {
                sp_and_rest(ts, p, binary(left, BinaryOperator::And, right))
            } else {
                None
            },
            None => None,
        }
    }
}

/// `not := NOT not | comparison`
pub open spec fn sp_not(ts: Seq<TokenView>, pos: int) -> Parsed<ExprView>
    decreases ts.len() - pos, 16int,
{
    if pos < 0 || pos >= ts.len() {
        None
    } else if is_kw(ts, pos, "NOT"@) {
        match sp_not(ts, pos + 1) {
            Some((e, p)) => Some((unary(UnaryOperator::Not, e), p)),
            None => None,
        }
    } else {
        sp_comparison(ts, pos)
    }
}

/// `comparison := additive [op additive]`
pub open spec fn sp_comparison(ts: Seq<TokenView>, pos: int) -> Parsed<ExprView>
    decreases ts.len() - pos, 15int,
{
    if pos < 0 || pos >= ts.len() {
        None
    } else {
        match sp_additive(ts, pos) {
            Some((left, p)) => match comparison_op(tok(ts, p)) {
                Some(op) => if p <= pos {
                    None
                } else {
                    match sp_additive(ts, p + 1) {
                        Some((right, q)) => Some((binary(left, op, right), q)),
                        None => None,
                    }
                },
                None => Some((left, p)),
            },
            None => None,
        }
    }
}

/// `additive := term (("+" | "-") term)*`
pub open spec fn sp_additive(ts: Seq<TokenView>, pos: int) -> Parsed<ExprView>
    decreases ts.len() - pos, 14int,
{
    if pos < 0 || pos >= ts.len() {
        None
    } else {
        match sp_term(ts, pos) {
            Some((left, p)) => if pos < p && p <= ts.len() {
                sp_additive_rest(ts, p, left)
            } else {
                None
            },
            None => None,
        }
    }
}

/// The `(("+" | "-") term)*` behind `left`.
pub open spec fn sp_additive_rest(ts: Seq<TokenView>, pos: int, left: ExprView) -> Parsed<ExprView>
    decreases ts.len() - pos, 13int,
{
    if pos < 0 || pos >= ts.len() {
        Some((left, pos))
    } else {
        match additive_op(tok(ts, pos)) {
            None => Some((left, pos)),
            Some(op) => match sp_term(ts, pos + 1) {
                Some((right, p)) => if pos < p && p <= ts.len() {
                    sp_additive_rest(ts, p, binary(left, op, right))
                } else {
                    None
                },
                None => None,
            },
        }
    }
}

/// `term := unary (("*" | "/" | "%") unary)*`
pub open spec fn sp_term(ts: Seq<TokenView>, pos: int) -> Parsed<ExprView>
    decreases ts.len() - pos, 12int,
{
    if pos < 0 || pos >= ts.len() {
        None
    } else {
        match sp_unary(ts, pos) {
            Some((left, p)) => if pos < p && p <= ts.len() {
                sp_term_rest(ts, p, left)
            } else {
                None
            },
            None => None,
        }
    }
}

/// The `(("*" | "/" | "%") unary)*` behind `left`.
pub open spec fn sp_term_rest(ts: Seq<TokenView>, pos: int, left: ExprView) -> Parsed<ExprView>
    decreases ts.len() - pos, 11int,
{
    if pos < 0 || pos >= ts.len() {
        Some((left, pos))
    } else {
        match term_op(tok(ts, pos)) {
            None => Some((left, pos)),
            Some(op) => match sp_unary(ts, pos + 1) {
                Some((right, p)) => if pos < p && p <= ts.len() {
                    sp_term_rest(ts, p, binary(left, op, right))
                } else {
                    None
                },
                None => None,
            },
        }
    }
}

/// `unary := ("-" | "+") unary | postfix`
pub open spec fn sp_unary(ts: Seq<TokenView>, pos: int) -> Parsed<ExprView>
    decreases ts.len() - pos, 10int,
{
    if pos < 0 || pos >= ts.len() {
        None
    } else {
        match ts[pos] {
            TokenView::Minus => match sp_unary(ts, pos + 1) {
                Some((e, p)) => Some((unary(UnaryOperator::Minus, e), p)),
                None => None,
            },
            TokenView::Plus => match sp_unary(ts, pos + 1) {
                Some((e, p)) => Some((unary(UnaryOperator::Plus, e), p)),
                None => None,
            },
            _ => sp_postfix(ts, pos),
        }
    }
}

/// The names behind the dots that follow from `pos` on.
pub open spec fn sp_lookups(ts: Seq<TokenView>, pos: int, sofar: Seq<Seq<char>>) -> (
    Seq<Seq<char>>,
    int,
)
    decreases ts.len() - pos,
{
    if 0 <= pos && pos + 1 < ts.len() && ts[pos] == TokenView::Dot {
        match ts[pos + 1] {
            TokenView::Ident(t) => sp_lookups(ts, pos + 2, sofar.push(t)),
            _ => (sofar, pos),
        }
    } else {
        (sofar, pos)
    }
}

/// `postfix := primary ("." name)*`: property lookups make a property chain
/// of a variable and are refused behind anything else.
pub open spec fn sp_postfix(ts: Seq<TokenView>, pos: int) -> Parsed<ExprView>
    decreases ts.len() - pos, 9int,
{
    if pos < 0 || pos >= ts.len() {
        None
    } else {
        match sp_primary(ts, pos) {
            Some((e, p)) => {
                let (names, q) = sp_lookups(ts, p, Seq::empty());
                if names.len() == 0 {
                    Some((e, p))
                } else {
                    match e {
                        ExprView::Variable(base) => Some(
                            (ExprView::Property(PropertyView { base, properties: names }), q),
                        ),
                        _ => None,
                    }
                }
            },
            None => None,
        }
    }
}

/// `exprs := expr ("," expr)*`, behind the expressions `sofar`.
pub open spec fn sp_exprs(ts: Seq<TokenView>, pos: int, sofar: Seq<ExprView>) -> Parsed<
    Seq<ExprView>,
>
    decreases ts.len() - pos, 23int,
{
    if pos < 0 || pos >= ts.len() {
        None
    } else {
        match gr_expr(ts, pos) {
            Some((e, p)) => if p > pos && tok(ts, p) == Some(TokenView::Comma) {
                sp_exprs(ts, p + 1, sofar.push(e))
            } else {
                Some((sofar.push(e), p))
            },
            None => None,
        }
    }
}

/// The key of the entry at `pos`: a name with a colon behind it.
pub open spec fn entry_key(ts: Seq<TokenView>, pos: int) -> Option<Seq<char>> {
    match (tok(ts, pos), tok(ts, pos + 1)) {
        (Some(TokenView::Ident(key)), Some(TokenView::Colon)) => Some(key),
        _ => None,
    }
}

/// `entry := name ":" expr`
pub open spec fn sp_entry(ts: Seq<TokenView>, pos: int) -> Parsed<(Seq<char>, ExprView)>
    decreases ts.len() - pos, 22int,
{
    if pos < 0 || pos + 2 >= ts.len() {
        None
    } else {
        match entry_key(ts, pos) {
            Some(key) => match gr_expr(ts, pos + 2) {
                Some((e, p)) => Some(((key, e), p)),
                None => None,
            },
            None => None,
        }
    }
}

/// `entries := entry ("," entry)*`, behind `sofar`.
pub open spec fn sp_entries(ts: Seq<TokenView>, pos: int, sofar: Seq<(Seq<char>, ExprView)>) -> Parsed<
    Seq<(Seq<char>, ExprView)>,
>
    decreases ts.len() - pos, 23int,
{
    if pos < 0 || pos >= ts.len() {
        None
    } else {
        match sp_entry(ts, pos) {
            Some((entry, p)) => if p > pos && tok(ts, p) == Some(TokenView::Comma) {
                sp_entries(ts, p + 1, sofar.push(entry))
            } else {
                Some((sofar.push(entry), p))
            },
            None => None,
        }
    }
}

/// `"{" [entries] "}"`: a property map or a map literal.
pub open spec fn sp_braces(ts: Seq<TokenView>, pos: int) -> Parsed<Seq<(Seq<char>, ExprView)>>
    decreases ts.len() - pos, 6int,
{
    if pos < 0 || pos + 1 >= ts.len() || ts[pos] != TokenView::LBrace {
        None
    } else if ts[pos + 1] == TokenView::RBrace {
        Some((Seq::empty(), pos + 2))
    } else {
        match gr_entries(ts, pos + 1) {
            Some((es, p)) => if tok(ts, p) == Some(TokenView::RBrace) {
                Some((es, p + 1))
            } else {
                None
            },
            None => None,
        }
    }
}

/// `"(" expr ")"`
pub open spec fn sp_group(ts: Seq<TokenView>, pos: int) -> Parsed<ExprView>
    decreases ts.len() - pos, 7int,
{
    if pos < 0 || pos >= ts.len() || ts[pos] != TokenView::LParen {
        None
    } else {
        match gr_expr(ts, pos + 1) {
            Some((e, p)) => if tok(ts, p) == Some(TokenView::RParen) {
                Some((e, p + 1))
            } else {
                None
            },
            None => None,
        }
    }
}

/// `"[" [exprs] "]"`
pub open spec fn sp_list(ts: Seq<TokenView>, pos: int) -> Parsed<ExprView>
    decreases ts.len() - pos, 7int,
{
    if pos < 0 || pos >= ts.len() || ts[pos] != TokenView::LBracket {
        None
    } else if tok(ts, pos + 1) == Some(TokenView::RBracket) {
        Some((ExprView::Literal(LiteralView::List(Seq::empty())), pos + 2))
    } else {
        match gr_exprs(ts, pos + 1) {
            Some((es, p)) => if tok(ts, p) == Some(TokenView::RBracket) {
                Some((ExprView::Literal(LiteralView::List(es)), p + 1))
            } else {
                None
            },
            None => None,
        }
    }
}

/// `name "(" ["*" | exprs] ")"`, where the name `t` stands at `pos`.
pub open spec fn sp_call(ts: Seq<TokenView>, pos: int, t: Seq<char>) -> Parsed<ExprView>
    decreases ts.len() - pos, 6int,
{
    if pos < 0 || pos >= ts.len() || tok(ts, pos + 1) != Some(TokenView::LParen) {
        None
    } else if tok(ts, pos + 2) == Some(TokenView::RParen) {
        Some((ExprView::FunctionCall { name: t, args: Seq::empty() }, pos + 3))
    } else if tok(ts, pos + 2) == Some(TokenView::Star) {
        if tok(ts, pos + 3) == Some(TokenView::RParen) {
            Some((ExprView::FunctionCall { name: t, args: Seq::empty() }, pos + 4))
        } else {
            None
        }
    } else {
        match gr_exprs(ts, pos + 2) {
            Some((es, p)) => if tok(ts, p) == Some(TokenView::RParen) {
                Some((ExprView::FunctionCall { name: t, args: es }, p + 1))
            } else {
                None
            },
            None => None,
        }
    }
}

/// What starts with the word `t` at `pos`: `NULL`, `TRUE`, `FALSE`, a call
/// or a variable; nothing for any other reserved word.
pub open spec fn sp_word(ts: Seq<TokenView>, pos: int, t: Seq<char>) -> Parsed<ExprView>
    decreases ts.len() - pos, 7int,
{
    let u = upper(t);
    if pos < 0 || pos >= ts.len() {
        None
    } else if u == "NULL"@ {
        Some((ExprView::Literal(LiteralView::Null), pos + 1))
    } else if u == "TRUE"@ {
        Some((ExprView::Literal(LiteralView::Boolean(true)), pos + 1))
    } else if u == "FALSE"@ {
        Some((ExprView::Literal(LiteralView::Boolean(false)), pos + 1))
    } else if reserved(t) {
        None
    } else if tok(ts, pos + 1) == Some(TokenView::LParen) {
        sp_call(ts, pos, t)
    } else {
        Some((ExprView::Variable(t), pos + 1))
    }
}

/// `primary`: a literal, a parameter, a call, a variable or an expression
/// in parentheses.
pub open spec fn sp_primary(ts: Seq<TokenView>, pos: int) -> Parsed<ExprView>
    decreases ts.len() - pos, 8int,
{
    if pos < 0 || pos >= ts.len() {
        None
    } else {
        match ts[pos] {
            TokenView::Integer(t) => match integer_of(t) {
                Some(i) => Some((ExprView::Literal(LiteralView::Integer(i)), pos + 1)),
                None => None,
            },
            TokenView::Float(t) => match float_of(t) {
                Some(l) => Some((ExprView::Literal(l), pos + 1)),
                None => None,
            },
            TokenView::Text(t) => Some((ExprView::Literal(LiteralView::String(t)), pos + 1)),
            TokenView::Param(t) => Some((ExprView::Parameter(t), pos + 1)),
            TokenView::LParen => sp_group(ts, pos),
            TokenView::LBracket => sp_list(ts, pos),
            TokenView::LBrace => match gr_braces(ts, pos) {
                Some((es, p)) => Some((ExprView::Literal(LiteralView::Mapping(es)), p)),
                None => None,
            },
            TokenView::Ident(t) => sp_word(ts, pos, t),
            _ => None,
        }
    }
}

/// An expression at `pos`.
#[verifier::opaque]
pub open spec fn gr_expr(ts: Seq<TokenView>, pos: int) -> Parsed<ExprView>
    decreases ts.len() - pos, 21int,
{
    if pos < 0 || pos >= ts.len() {
        None
    } else {
        sp_expr(ts, pos)
    }
}

/// A list of expressions at `pos`.
#[verifier::opaque]
pub open spec fn gr_exprs(ts: Seq<TokenView>, pos: int) -> Parsed<Seq<ExprView>>
    decreases ts.len() - pos, 24int,
{
    if pos < 0 || pos >= ts.len() {
        None
    } else {
        sp_exprs(ts, pos, Seq::empty())
    }
}

/// A list of entries at `pos`.
#[verifier::opaque]
pub open spec fn gr_entries(ts: Seq<TokenView>, pos: int) -> Parsed<Seq<(Seq<char>, ExprView)>>
    decreases ts.len() - pos, 24int,
{
    if pos < 0 || pos >= ts.len() {
        None
    } else {
        sp_entries(ts, pos, Seq::empty())
    }
}

/// A property map in braces at `pos`.
#[verifier::opaque]
pub open spec fn gr_braces(ts: Seq<TokenView>, pos: int) -> Parsed<Seq<(Seq<char>, ExprView)>>
    decreases ts.len() - pos, 7int,
{
    if pos < 0 || pos >= ts.len() {
        None
    } else {
        sp_braces(ts, pos)
    }
}

/// What the rules behind the barriers are.
pub proof fn lemma_barriers(ts: Seq<TokenView>, pos: int)
    ensures
        gr_expr(ts, pos) == sp_expr(ts, pos),
        gr_exprs(ts, pos) == sp_exprs(ts, pos, Seq::empty()),
        gr_entries(ts, pos) == sp_entries(ts, pos, Seq::empty()),
        gr_braces(ts, pos) == sp_braces(ts, pos),
{
    reveal(gr_expr);
    reveal(gr_exprs);
    reveal(gr_entries);
    reveal(gr_braces);
}

/// The name at `pos` if one stands there, and the position behind it.
pub open spec fn sp_opt_name(ts: Seq<TokenView>, pos: int) -> (Option<Seq<char>>, int) {
    match name_at(ts, pos) {
        Some(t) => (Some(t), pos + 1),
        None => (None, pos),
    }
}

/// The label behind a colon at `pos` if one stands there, and the position
/// behind it.
pub open spec fn sp_opt_label(ts: Seq<TokenView>, pos: int) -> (Option<Seq<char>>, int) {
    if tok(ts, pos) == Some(TokenView::Colon) {
        match tok(ts, pos + 1) {
            Some(TokenView::Ident(t)) => (Some(t), pos + 2),
            _ => (None, pos),
        }
    } else {
        (None, pos)
    }
}

/// The property map at `pos` if a brace stands there: nothing where the
/// map is malformed.
pub open spec fn sp_opt_properties(ts: Seq<TokenView>, pos: int) -> Option<
    (Option<Seq<(Seq<char>, ExprView)>>, int),
> {
    if tok(ts, pos) == Some(TokenView::LBrace) {
        match gr_braces(ts, pos) {
            Some((es, p)) => Some((Some(es), p)),
            None => None,
        }
    } else {
        Some((None, pos))
    }
}

/// `node := "(" [name] [":" name] [properties] ")"`
#[verifier::opaque]
pub open spec fn sp_node(ts: Seq<TokenView>, pos: int) -> Parsed<NodeView> {
    if tok(ts, pos) != Some(TokenView::LParen) {
        None
    } else {
        let (variable, p1) = sp_opt_name(ts, pos + 1);
        let (label, p2) = sp_opt_label(ts, p1);
        match sp_opt_properties(ts, p2) {
            Some((properties, p3)) => if tok(ts, p3) == Some(TokenView::RParen) {
                Some((NodeView { variable, label, properties }, p3 + 1))
            } else {
                None
            },
            None => None,
        }
    }
}

/// The direction of an edge written with or without `<` in front and `>`
/// behind: an edge with both, or with neither, is undirected.
pub open spec fn direction_of(left: bool, right: bool) -> Direction {
    if left && !right {
        Direction::Left
    } else if right && !left {
        Direction::Right
    } else {
        Direction::Both
    }
}

/// `edge := ["<"] "-" ["[" [name] [":" name] [properties] "]"] "-" [">"]`
#[verifier::opaque]
pub open spec fn sp_edge(ts: Seq<TokenView>, pos: int) -> Parsed<EdgePatternView> {
    let left = tok(ts, pos) == Some(TokenView::Lt);
    let p1 = if left {
        pos + 1
    } else {
        pos
    };
    if tok(ts, p1) != Some(TokenView::Minus) {
        None
    } else {
        let inner: Option<(Option<Seq<char>>, Option<Seq<char>>, Option<Seq<(Seq<char>, ExprView)>>, int)> =
            if tok(ts, p1 + 1) == Some(TokenView::LBracket) {
            let (variable, q1) = sp_opt_name(ts, p1 + 2);
            let (label, q2) = sp_opt_label(ts, q1);
            match sp_opt_properties(ts, q2) {
                Some((properties, q3)) => if tok(ts, q3) == Some(TokenView::RBracket) {
                    Some((variable, label, properties, q3 + 1))
                } else {
                    None
                },
                None => None,
            }
        } else {
            Some((None, None, None, p1 + 1))
        };
        match inner {
            None => None,
            Some((variable, label, properties, p3)) => if tok(ts, p3) != Some(TokenView::Minus) {
                None
            } else {
                let right = tok(ts, p3 + 1) == Some(TokenView::Gt);
                Some(
                    (
                        EdgePatternView {
                            variable,
                            label,
                            properties,
                            direction: direction_of(left, right),
                        },
                        if right {
                            p3 + 2
                        } else {
                            p3 + 1
                        },
                    ),
                )
            },
        }
    }
}

/// The `(edge node)*` behind the elements `sofar`.
#[verifier::opaque]
pub open spec fn sp_pattern_rest(ts: Seq<TokenView>, pos: int, sofar: Seq<ElementView>) -> Parsed<
    Seq<ElementView>,
>
    decreases ts.len() - pos,
{
    if pos < 0 || pos >= ts.len() || !(ts[pos] == TokenView::Minus || ts[pos] == TokenView::Lt) {
        Some((sofar, pos))
    } else {
        match sp_edge(ts, pos) {
            None => None,
            Some((e, p)) => match sp_node(ts, p) {
                None => None,
                Some((n, q)) => if pos < q && q <= ts.len() {
                    sp_pattern_rest(
                        ts,
                        q,
                        sofar.push(ElementView::Edge(e)).push(ElementView::Node(n)),
                    )
                } else {
                    None
                },
            },
        }
    }
}

/// `pattern := node (edge node)*`
#[verifier::opaque]
pub open spec fn sp_pattern(ts: Seq<TokenView>, pos: int) -> Parsed<Seq<ElementView>> {
    match sp_node(ts, pos) {
        Some((n, p)) => sp_pattern_rest(ts, p, seq![ElementView::Node(n)]),
        None => None,
    }
}

/// `patterns := pattern ("," pattern)*`, behind the patterns `sofar`.
#[verifier::opaque]
pub open spec fn sp_patterns(ts: Seq<TokenView>, pos: int, sofar: Seq<Seq<ElementView>>) -> Parsed<
    Seq<Seq<ElementView>>,
>
    decreases ts.len() - pos,
{
    if pos < 0 || pos >= ts.len() {
        None
    } else {
        match sp_pattern(ts, pos) {
            Some((e, p)) => if pos < p && p < ts.len() && ts[p] == TokenView::Comma {
                sp_patterns(ts, p + 1, sofar.push(e))
            } else {
                Some((sofar.push(e), p))
            },
            None => None,
        }
    }
}

/// `item := expr [AS name]`
#[verifier::opaque]
pub open spec fn sp_item(ts: Seq<TokenView>, pos: int) -> Parsed<ReturnItemView> {
    match gr_expr(ts, pos) {
        Some((expression, p)) => if is_kw(ts, p, "AS"@) {
            match tok(ts, p + 1) {
                Some(TokenView::Ident(t)) => Some(
                    (ReturnItemView { expression, alias: Some(t) }, p + 2),
                ),
                _ => None,
            }
        } else {
            Some((ReturnItemView { expression, alias: None }, p))
        },
        None => None,
    }
}

/// `items := item ("," item)*`, behind the items `sofar`.
#[verifier::opaque]
pub open spec fn sp_items(ts: Seq<TokenView>, pos: int, sofar: Seq<ReturnItemView>) -> Parsed<
    Seq<ReturnItemView>,
>
    decreases ts.len() - pos,
{
    if pos < 0 || pos >= ts.len() {
        None
    } else {
        match sp_item(ts, pos) {
            Some((e, p)) => if pos < p && p < ts.len() && ts[p] == TokenView::Comma {
                sp_items(ts, p + 1, sofar.push(e))
            } else {
                Some((sofar.push(e), p))
            },
            None => None,
        }
    }
}

/// `sort := expr [ASC | DESC]`
#[verifier::opaque]
pub open spec fn sp_sort(ts: Seq<TokenView>, pos: int) -> Parsed<SortItemView> {
    match gr_expr(ts, pos) {
        Some((expression, p)) => if is_kw(ts, p, "DESC"@) {
            Some((SortItemView { expression, ascending: false }, p + 1))
        } else if is_kw(ts, p, "ASC"@) {
            Some((SortItemView { expression, ascending: true }, p + 1))
        } else {
            Some((SortItemView { expression, ascending: true }, p))
        },
        None => None,
    }
}

/// `sorts := sort ("," sort)*`, behind the items `sofar`.
#[verifier::opaque]
pub open spec fn sp_sorts(ts: Seq<TokenView>, pos: int, sofar: Seq<SortItemView>) -> Parsed<
    Seq<SortItemView>,
>
    decreases ts.len() - pos,
{
    if pos < 0 || pos >= ts.len() {
        None
    } else {
        match sp_sort(ts, pos) {
            Some((e, p)) => if pos < p && p < ts.len() && ts[p] == TokenView::Comma {
                sp_sorts(ts, p + 1, sofar.push(e))
            } else {
                Some((sofar.push(e), p))
            },
            None => None,
        }
    }
}

/// `[ORDER BY sorts]`
#[verifier::opaque]
pub open spec fn sp_opt_order(ts: Seq<TokenView>, pos: int) -> Option<
    (Option<Seq<SortItemView>>, int),
> {
    if is_kw(ts, pos, "ORDER"@) {
        if is_kw(ts, pos + 1, "BY"@) {
            match sp_sorts(ts, pos + 2, Seq::empty()) {
                Some((s, p)) => Some((Some(s), p)),
                None => None,
            }
        } else {
            None
        }
    } else {
        Some((None, pos))
    }
}

/// `[LIMIT ["-"] integer]`
#[verifier::opaque]
pub open spec fn sp_opt_limit(ts: Seq<TokenView>, pos: int) -> Option<(Option<i64>, int)> {
    if is_kw(ts, pos, "LIMIT"@) {
        match tok(ts, pos + 1) {
            Some(TokenView::Integer(t)) => match integer_of(t) {
                Some(i) => Some((Some(i), pos + 2)),
                None => None,
            },
            Some(TokenView::Minus) => match tok(ts, pos + 2) {
                Some(TokenView::Integer(t)) => match integer_of(t) {
                    Some(i) => Some((Some((0 - i) as i64), pos + 3)),
                    None => None,
                },
                _ => None,
            },
            _ => None,
        }
    } else {
        Some((None, pos))
    }
}

/// `return := items [ORDER BY sorts] [LIMIT integer]`
#[verifier::opaque]
pub open spec fn sp_return(ts: Seq<TokenView>, pos: int) -> Parsed<ReturnView> {
    match sp_items(ts, pos, Seq::empty()) {
        Some((items, p)) => match sp_opt_order(ts, p) {
            Some((order_by, q)) => match sp_opt_limit(ts, q) {
                Some((limit, r)) => Some((ReturnView { items, order_by, limit }, r)),
                None => None,
            },
            None => None,
        },
        None => None,
    }
}

/// `assignment := name ("." name)+ "=" expr`
#[verifier::opaque]
pub open spec fn sp_assignment(ts: Seq<TokenView>, pos: int) -> Parsed<SetItemView> {
    match name_at(ts, pos) {
        Some(base) => {
            let (names, p) = sp_lookups(ts, pos + 1, Seq::empty());
            if names.len() > 0 && tok(ts, p) == Some(TokenView::Eq) {
                match gr_expr(ts, p + 1) {
                    Some((value, q)) => Some(
                        (SetItemView { property: PropertyView { base, properties: names }, value }, q),
                    ),
                    None => None,
                }
            } else {
                None
            }
        },
        None => None,
    }
}

/// `assignments := assignment ("," assignment)*`, behind `sofar`.
#[verifier::opaque]
pub open spec fn sp_assignments(ts: Seq<TokenView>, pos: int, sofar: Seq<SetItemView>) -> Parsed<
    Seq<SetItemView>,
>
    decreases ts.len() - pos,
{
    if pos < 0 || pos >= ts.len() {
        None
    } else {
        match sp_assignment(ts, pos) {
            Some((e, p)) => if pos < p && p < ts.len() && ts[p] == TokenView::Comma {
                sp_assignments(ts, p + 1, sofar.push(e))
            } else {
                Some((sofar.push(e), p))
            },
            None => None,
        }
    }
}

/// `write := CREATE patterns | [DETACH] DELETE exprs | SET assignments`
#[verifier::opaque]
pub open spec fn sp_write(ts: Seq<TokenView>, pos: int) -> Parsed<WriteView> {
    if is_kw(ts, pos, "CREATE"@) {
        match sp_patterns(ts, pos + 1, Seq::empty()) {
            Some((patterns, p)) => Some((WriteView::Create { patterns }, p)),
            None => None,
        }
    } else if is_kw(ts, pos, "DETACH"@) {
        if is_kw(ts, pos + 1, "DELETE"@) {
            match gr_exprs(ts, pos + 2) {
                Some((expressions, p)) => Some((WriteView::Delete { expressions, detach: true }, p)),
                None => None,
            }
        } else {
            None
        }
    } else if is_kw(ts, pos, "DELETE"@) {
        match gr_exprs(ts, pos + 1) {
            Some((expressions, p)) => Some((WriteView::Delete { expressions, detach: false }, p)),
            None => None,
        }
    } else if is_kw(ts, pos, "SET"@) {
        match sp_assignments(ts, pos + 1, Seq::empty()) {
            Some((items, p)) => Some((WriteView::Assign { items }, p)),
            None => None,
        }
    } else {
        None
    }
}

/// `[WHERE expr]`
pub open spec fn sp_opt_where(ts: Seq<TokenView>, pos: int) -> Option<(Option<ExprView>, int)> {
    if is_kw(ts, pos, "WHERE"@) {
        match gr_expr(ts, pos + 1) {
            Some((e, p)) => Some((Some(e), p)),
            None => None,
        }
    } else {
        Some((None, pos))
    }
}

/// `[RETURN return]`
pub open spec fn sp_opt_return(ts: Seq<TokenView>, pos: int) -> Option<(Option<ReturnView>, int)> {
    if is_kw(ts, pos, "RETURN"@) {
        match sp_return(ts, pos + 1) {
            Some((r, p)) => Some((Some(r), p)),
            None => None,
        }
    } else {
        Some((None, pos))
    }
}

/// `statement`: a read, a mixed or a write query.
#[verifier::opaque]
pub open spec fn sp_statement(ts: Seq<TokenView>, pos: int) -> Parsed<QueryView> {
    if is_kw(ts, pos, "MATCH"@) {
        match sp_patterns(ts, pos + 1, Seq::empty()) {
            None => None,
            Some((patterns, p)) => match sp_opt_where(ts, p) {
                None => None,
                Some((condition, q)) => if is_kw(ts, q, "RETURN"@) {
                    match sp_return(ts, q + 1) {
                        Some((result, r)) => Some((QueryView::Read { patterns, condition, result }, r)),
                        None => None,
                    }
                } else {
                    match sp_write(ts, q) {
                        None => None,
                        Some((write, r)) => match sp_opt_return(ts, r) {
                            Some((result, e)) => Some(
                                (QueryView::Mixed { patterns, condition, write, result }, e),
                            ),
                            None => None,
                        },
                    }
                },
            },
        }
    } else {
        match sp_write(ts, pos) {
            Some((w, p)) => Some((QueryView::Write(w), p)),
            None => None,
        }
    }
}

/// The query that a token list is: one statement, an optional semicolon,
/// and nothing behind it.
pub open spec fn sp_query(ts: Seq<TokenView>) -> Option<QueryView> {
    match sp_statement(ts, 0) {
        Some((q, p)) => {
            let end = if tok(ts, p) == Some(TokenView::Semicolon) {
                p + 1
            } else {
                p
            };
            if end == ts.len() {
                Some(q)
            } else {
                None
            }
        },
        None => None,
    }
}

/// The query that a text is.
pub open spec fn parse_spec(text: Seq<char>) -> Option<QueryView> {
    match crate::parser::lexer::lex(text) {
        Some(ts) => sp_query(ts),
        None => None,
    }
}

/// Behind the last token nothing starts.
pub proof fn lemma_nothing_behind(ts: Seq<TokenView>, pos: int)
    requires
        pos >= ts.len(),
    ensures
        tok(ts, pos) is None,
        forall|kw: Seq<char>| !#[trigger] is_kw(ts, pos, kw),
        gr_expr(ts, pos) is None,
        gr_braces(ts, pos) is None,
        sp_node(ts, pos) is None,
        sp_edge(ts, pos) is None,
        sp_pattern(ts, pos) is None,
        forall|a: Seq<Seq<ElementView>>| (#[trigger] sp_patterns(ts, pos, a)) is None,
        sp_item(ts, pos) is None,
        forall|a: Seq<ReturnItemView>| (#[trigger] sp_items(ts, pos, a)) is None,
        sp_sort(ts, pos) is None,
        forall|a: Seq<SortItemView>| (#[trigger] sp_sorts(ts, pos, a)) is None,
        sp_assignment(ts, pos) is None,
        forall|a: Seq<SetItemView>| (#[trigger] sp_assignments(ts, pos, a)) is None,
        sp_write(ts, pos) is None,
        sp_statement(ts, pos) is None,
        sp_return(ts, pos) is None,
{
    reveal(is_kw);
    reveal(gr_expr);
    reveal(gr_exprs);
    reveal(gr_braces);
    reveal(sp_node);
    reveal(sp_edge);
    reveal(sp_pattern);
    reveal(sp_patterns);
    reveal(sp_item);
    reveal(sp_items);
    reveal(sp_sort);
    reveal(sp_sorts);
    reveal(sp_assignment);
    reveal(sp_assignments);
    reveal(sp_write);
    reveal(sp_statement);
    reveal(sp_return);
}

} // verus!
