//! The expression rules of the parser.

use crate::json::Json;
use crate::parser::ast::{
    entries_model, exprs_view, lemma_expr_unfold, literal_model, BinaryOperator, CypherQuery,
    Direction, EdgePattern, Expression, Literal, LiteralView, MapEntry, MatchClause, NodePattern,
    Pattern, PatternElement, PropertyExpression, ReturnClause, ReturnItem, SetItem, SortItem,
    UnaryOperator, WhereClause, WriteClause,
};
use crate::parser::grammar::{
    additive_op, binary, comparison_op, direction_of, entry_key, float_of, gr_braces, gr_entries, gr_expr, gr_exprs, integer_of, is_kw, name_at, parse_spec, reserved, sp_additive, sp_additive_rest, sp_and, sp_and_rest, sp_assignment, sp_assignments, sp_braces, sp_call, sp_comparison, sp_edge, sp_entries, sp_entry, sp_expr, sp_exprs, sp_group, sp_item, sp_items, sp_list, sp_lookups, sp_node, sp_not, sp_opt_label, sp_opt_limit, sp_opt_name, sp_opt_order, sp_opt_properties, sp_opt_return, sp_opt_where, sp_or_rest, sp_pattern, sp_pattern_rest, sp_patterns, sp_postfix, sp_primary, sp_query, sp_return, sp_sort, sp_sorts, sp_statement, sp_term, sp_term_rest, sp_unary, sp_word, sp_write, term_op, tok, unary, upper, upper_char,
    lemma_barriers,
};
use crate::parser::grammar::Parsed;
use crate::parser::lexer::{tokens_view, Token};
use crate::storage::codec::parse_number;
use crate::text::parse_decimal_str;
use vstd::prelude::*;
use vstd::string::StrSliceExecFns;

verus! {

pub(crate) fn to_upper(c: char) -> (r: char)
    ensures
        r == upper_char(c),
{
    if 'a' <= c && c <= 'z' {
        let b: u8 = c as u8;
        (b - 32) as char
    } else {
        c
    }
}

/// Whether `t` in upper case is `kw`.
pub fn upper_eq(t: &str, kw: &str) -> (r: bool)
    ensures
        r == (upper(t@) == kw@),
{
    let n = t.unicode_len();
    if n != kw.unicode_len() {
        assert(upper(t@).len() != kw@.len());
        return false;
    }
    let mut i: usize = 0;
    while i < n
        invariant
            n == t@.len(),
            n == kw@.len(),
            0 <= i <= n,
            forall|k: int| 0 <= k < i ==> upper(t@)[k] == kw@[k],
        decreases n - i,
    {
        if to_upper(t.get_char(i)) != kw.get_char(i) {
            assert(upper(t@)[i as int] != kw@[i as int]);
            return false;
        }
        i += 1;
    }
    assert(upper(t@) =~= kw@);
    true
}

/// Whether the token at `pos` is the keyword `kw`.
pub(crate) fn keyword_at(ts: &Vec<Token>, pos: usize, kw: &str) -> (r: bool)
    ensures
        r == is_kw(tokens_view(ts@), pos as int, kw@),
        r ==> pos < ts.len(),
{
    reveal(is_kw);
    if pos >= ts.len() {
        return false;
    }
    match &ts[pos] {
        Token::Ident(t) => upper_eq(t.as_str(), kw),
        _ => false,
    }
}

/// Whether a word cannot name a variable.
pub(crate) fn is_reserved(t: &str) -> (r: bool)
    ensures
        r == reserved(t@),
{
    reveal(reserved);
    upper_eq(t, "MATCH") || upper_eq(t, "WHERE") || upper_eq(t, "RETURN") || upper_eq(t, "ORDER")
        || upper_eq(t, "BY") || upper_eq(t, "ASC") || upper_eq(t, "DESC") || upper_eq(t, "LIMIT")
        || upper_eq(t, "CREATE") || upper_eq(t, "DELETE") || upper_eq(t, "DETACH") || upper_eq(
        t,
        "SET",
    ) || upper_eq(t, "AND") || upper_eq(t, "OR") || upper_eq(t, "NOT") || upper_eq(t, "NULL")
        || upper_eq(t, "TRUE") || upper_eq(t, "FALSE") || upper_eq(t, "AS")
}

/// The integer that a string of digits denotes.
pub(crate) fn read_integer(t: &str) -> (r: Option<i64>)
    ensures
        r == integer_of(t@),
{
    match parse_decimal_str(t) {
        Some(u) => if u <= 0x7fff_ffff_ffff_ffffu64 {
            Some(u as i64)
        } else {
            None
        },
        None => None,
    }
}

/// The literal that a number with a fraction or an exponent denotes.
pub(crate) fn read_float(t: &str) -> (r: Option<Literal>)
    ensures
        r.is_some() == float_of(t@).is_some(),
        r matches Some(l) ==> float_of(t@) == Some(l@),
{
    match parse_number(t) {
        Some(Json::Float(c)) => {
            assert(literal_model(Literal::Float(c)) == LiteralView::Float(c@));
            Some(Literal::Float(c))
        },
        Some(Json::Int(i)) => {
            assert(literal_model(Literal::Integer(i)) == LiteralView::Integer(i));
            Some(Literal::Integer(i))
        },
        _ => None,
    }
}

/// Whether the token at `pos` is the same as `t`, which holds no text.
pub(crate) fn symbol_at(ts: &Vec<Token>, pos: usize, t: &Token) -> (r: bool)
    requires
        !(t is Ident || t is Integer || t is Float || t is Text || t is Param),
    ensures
        r == (tok(tokens_view(ts@), pos as int) == Some(t@)),
{
    if pos >= ts.len() {
        return false;
    }
    match (&ts[pos], t) {
        (Token::LParen, Token::LParen) => true,
        (Token::RParen, Token::RParen) => true,
        (Token::LBracket, Token::LBracket) => true,
        (Token::RBracket, Token::RBracket) => true,
        (Token::LBrace, Token::LBrace) => true,
        (Token::RBrace, Token::RBrace) => true,
        (Token::Colon, Token::Colon) => true,
        (Token::Comma, Token::Comma) => true,
        (Token::Dot, Token::Dot) => true,
        (Token::Semicolon, Token::Semicolon) => true,
        (Token::Star, Token::Star) => true,
        (Token::Plus, Token::Plus) => true,
        (Token::Minus, Token::Minus) => true,
        (Token::Slash, Token::Slash) => true,
        (Token::Percent, Token::Percent) => true,
        (Token::Eq, Token::Eq) => true,
        (Token::Neq, Token::Neq) => true,
        (Token::Lt, Token::Lt) => true,
        (Token::Gt, Token::Gt) => true,
        (Token::Lte, Token::Lte) => true,
        (Token::Gte, Token::Gte) => true,
        _ => false,
    }
}

/// `left op right`.
pub(crate) fn make_binary(left: Expression, op: BinaryOperator, right: Expression) -> (r: Expression)
    ensures
        r@ == binary(left@, op, right@),
{
    Expression::BinaryOp { left: Box::new(left), op, right: Box::new(right) }
}

/// `op expr`.
pub(crate) fn make_unary(op: UnaryOperator, expr: Expression) -> (r: Expression)
    ensures
        r@ == unary(op, expr@),
{
    Expression::UnaryOp { op, expr: Box::new(expr) }
}

/// The names behind the dots that follow from `pos` on.
pub(crate) fn parse_lookups(ts: &Vec<Token>, pos: usize) -> (r: (Vec<String>, usize))
    requires
        pos <= ts.len(),
    ensures
        (crate::parser::ast::texts_view(r.0@), r.1 as int) == sp_lookups(
            tokens_view(ts@),
            pos as int,
            Seq::empty(),
        ),
        pos <= r.1 <= ts.len(),
        r.0.len() > 0 ==> pos < r.1,
{
    let ghost tv = tokens_view(ts@);
    let mut names: Vec<String> = Vec::new();
    let mut p = pos;
    assert(crate::parser::ast::texts_view(names@) =~= Seq::empty());
    loop
        invariant
            pos <= p <= ts.len(),
            tv == tokens_view(ts@),
            sp_lookups(tv, pos as int, Seq::empty()) == sp_lookups(
                tv,
                p as int,
                crate::parser::ast::texts_view(names@),
            ),
            names.len() > 0 ==> pos < p,
        decreases ts.len() - p,
    {
        if p < ts.len() && p + 1 < ts.len() && symbol_at(ts, p, &Token::Dot) {
            match &ts[p + 1] {
                Token::Ident(t) => {
                    let ghost before = crate::parser::ast::texts_view(names@);
                    names.push(t.clone());
                    assert(crate::parser::ast::texts_view(names@) =~= before.push(t@));
                    p = p + 2;
                },
                _ => {
                    return (names, p);
                },
            }
        } else {
            return (names, p);
        }
    }
}

/// The parser's result is what the grammar says, and lies behind `pos`.
pub open spec fn expr_agrees(
    r: Option<(Expression, usize)>,
    s: Parsed<crate::parser::ast::ExprView>,
    pos: usize,
    len: usize,
) -> bool {
    &&& r.is_some() == s.is_some()
    &&& r matches Some(x) ==> s == Some((x.0@, x.1 as int)) && pos < x.1 <= len
}

/// `expr := and (OR and)*`
pub fn parse_expr(ts: &Vec<Token>, pos: usize) -> (r: Option<(Expression, usize)>)
    ensures
        expr_agrees(r, gr_expr(tokens_view(ts@), pos as int), pos, ts.len()),
    decreases ts.len() - pos, 20int,
{
    proof {
        lemma_barriers(tokens_view(ts@), pos as int);
    }
    if pos >= ts.len() {
        return None;
    }
    let ghost tv = tokens_view(ts@);
    let (mut left, mut p) = match parse_and(ts, pos) {
        Some(x) => x,
        None => {
            return None;
        },
    };
    loop
        invariant
            pos < p <= ts.len(),
            pos < ts.len(),
            tv == tokens_view(ts@),
            gr_expr(tv, pos as int) == sp_expr(tv, pos as int),
            sp_expr(tv, pos as int) == sp_or_rest(tv, p as int, left@),
        decreases ts.len() - p,
    {
        if p < ts.len() && keyword_at(ts, p, "OR") {
            match parse_and(ts, p + 1) {
                Some((right, q)) => {
                    left = make_binary(left, BinaryOperator::Or, right);
                    p = q;
                },
                None => {
                    return None;
                },
            }
        } else {
            return Some((left, p));
        }
    }
}

/// `and := not (AND not)*`
pub(crate) fn parse_and(ts: &Vec<Token>, pos: usize) -> (r: Option<(Expression, usize)>)
    ensures
        expr_agrees(r, sp_and(tokens_view(ts@), pos as int), pos, ts.len()),
    decreases ts.len() - pos, 18int,
{
    if pos >= ts.len() {
        return None;
    }
    let ghost tv = tokens_view(ts@);
    let (mut left, mut p) = match parse_not(ts, pos) {
        Some(x) => x,
        None => {
            return None;
        },
    };
    loop
        invariant
            pos < p <= ts.len(),
            pos < ts.len(),
            tv == tokens_view(ts@),
            sp_and(tv, pos as int) == sp_and_rest(tv, p as int, left@),
        decreases ts.len() - p,
    {
        if p < ts.len() && keyword_at(ts, p, "AND") {
            match parse_not(ts, p + 1) {
                Some((right, q)) => {
                    left = make_binary(left, BinaryOperator::And, right);
                    p = q;
                },
                None => {
                    return None;
                },
            }
        } else {
            return Some((left, p));
        }
    }
}

/// `not := NOT not | comparison`
pub(crate) fn parse_not(ts: &Vec<Token>, pos: usize) -> (r: Option<(Expression, usize)>)
    ensures
        expr_agrees(r, sp_not(tokens_view(ts@), pos as int), pos, ts.len()),
    decreases ts.len() - pos, 16int,
{
    if pos >= ts.len() {
        return None;
    }
    if keyword_at(ts, pos, "NOT") {
        match parse_not(ts, pos + 1) {
            Some((e, p)) => Some((make_unary(UnaryOperator::Not, e), p)),
            None => None,
        }
    } else {
        parse_comparison(ts, pos)
    }
}

/// The comparison operator at `pos`.
pub(crate) fn comparison_at(ts: &Vec<Token>, pos: usize) -> (r: Option<BinaryOperator>)
    ensures
        r == comparison_op(tok(tokens_view(ts@), pos as int)),
{
    if pos >= ts.len() {
        return None;
    }
    match &ts[pos] {
        Token::Eq => Some(BinaryOperator::Eq),
        Token::Neq => Some(BinaryOperator::Neq),
        Token::Lt => Some(BinaryOperator::Lt),
        Token::Gt => Some(BinaryOperator::Gt),
        Token::Lte => Some(BinaryOperator::Lte),
        Token::Gte => Some(BinaryOperator::Gte),
        _ => None,
    }
}

/// `comparison := additive [op additive]`
pub(crate) fn parse_comparison(ts: &Vec<Token>, pos: usize) -> (r: Option<(Expression, usize)>)
    ensures
        expr_agrees(r, sp_comparison(tokens_view(ts@), pos as int), pos, ts.len()),
    decreases ts.len() - pos, 15int,
{
    if pos >= ts.len() {
        return None;
    }
    let (left, p) = match parse_additive(ts, pos) {
        Some(x) => x,
        None => {
            return None;
        },
    };
    match comparison_at(ts, p) {
        Some(op) => match parse_additive(ts, p + 1) {
            Some((right, q)) => Some((make_binary(left, op, right), q)),
            None => None,
        },
        None => Some((left, p)),
    }
}

/// The additive operator at `pos`.
pub(crate) fn additive_at(ts: &Vec<Token>, pos: usize) -> (r: Option<BinaryOperator>)
    ensures
        r == additive_op(tok(tokens_view(ts@), pos as int)),
{
    if pos >= ts.len() {
        return None;
    }
    match &ts[pos] {
        Token::Plus => Some(BinaryOperator::Add),
        Token::Minus => Some(BinaryOperator::Subtract),
        _ => None,
    }
}

/// The multiplicative operator at `pos`.
pub(crate) fn term_at(ts: &Vec<Token>, pos: usize) -> (r: Option<BinaryOperator>)
    ensures
        r == term_op(tok(tokens_view(ts@), pos as int)),
{
    if pos >= ts.len() {
        return None;
    }
    match &ts[pos] {
        Token::Star => Some(BinaryOperator::Multiply),
        Token::Slash => Some(BinaryOperator::Divide),
        Token::Percent => Some(BinaryOperator::Modulo),
        _ => None,
    }
}

/// `additive := term (("+" | "-") term)*`
pub(crate) fn parse_additive(ts: &Vec<Token>, pos: usize) -> (r: Option<(Expression, usize)>)
    ensures
        expr_agrees(r, sp_additive(tokens_view(ts@), pos as int), pos, ts.len()),
    decreases ts.len() - pos, 14int,
{
    if pos >= ts.len() {
        return None;
    }
    let ghost tv = tokens_view(ts@);
    let (mut left, mut p) = match parse_term(ts, pos) {
        Some(x) => x,
        None => {
            return None;
        },
    };
    loop
        invariant
            pos < p <= ts.len(),
            pos < ts.len(),
            tv == tokens_view(ts@),
            sp_additive(tv, pos as int) == sp_additive_rest(tv, p as int, left@),
        decreases ts.len() - p,
    {
        match additive_at(ts, p) {
            Some(op) => match parse_term(ts, p + 1) {
                Some((right, q)) => {
                    left = make_binary(left, op, right);
                    p = q;
                },
                None => {
                    return None;
                },
            },
            None => {
                return Some((left, p));
            },
        }
    }
}

/// `term := unary (("*" | "/" | "%") unary)*`
pub(crate) fn parse_term(ts: &Vec<Token>, pos: usize) -> (r: Option<(Expression, usize)>)
    ensures
        expr_agrees(r, sp_term(tokens_view(ts@), pos as int), pos, ts.len()),
    decreases ts.len() - pos, 12int,
{
    if pos >= ts.len() {
        return None;
    }
    let ghost tv = tokens_view(ts@);
    let (mut left, mut p) = match parse_unary(ts, pos) {
        Some(x) => x,
        None => {
            return None;
        },
    };
    loop
        invariant
            pos < p <= ts.len(),
            pos < ts.len(),
            tv == tokens_view(ts@),
            sp_term(tv, pos as int) == sp_term_rest(tv, p as int, left@),
        decreases ts.len() - p,
    {
        match term_at(ts, p) {
            Some(op) => match parse_unary(ts, p + 1) {
                Some((right, q)) => {
                    left = make_binary(left, op, right);
                    p = q;
                },
                None => {
                    return None;
                },
            },
            None => {
                return Some((left, p));
            },
        }
    }
}

/// `unary := ("-" | "+") unary | postfix`
pub(crate) fn parse_unary(ts: &Vec<Token>, pos: usize) -> (r: Option<(Expression, usize)>)
    ensures
        expr_agrees(r, sp_unary(tokens_view(ts@), pos as int), pos, ts.len()),
    decreases ts.len() - pos, 10int,
{
    if pos >= ts.len() {
        return None;
    }
    match &ts[pos] {
        Token::Minus => match parse_unary(ts, pos + 1) {
            Some((e, p)) => Some((make_unary(UnaryOperator::Minus, e), p)),
            None => None,
        },
        Token::Plus => match parse_unary(ts, pos + 1) {
            Some((e, p)) => Some((make_unary(UnaryOperator::Plus, e), p)),
            None => None,
        },
        _ => parse_postfix(ts, pos),
    }
}

/// `postfix := primary ("." name)*`
pub(crate) fn parse_postfix(ts: &Vec<Token>, pos: usize) -> (r: Option<(Expression, usize)>)
    ensures
        expr_agrees(r, sp_postfix(tokens_view(ts@), pos as int), pos, ts.len()),
    decreases ts.len() - pos, 9int,
{
    if pos >= ts.len() {
        return None;
    }
    let (e, p) = match parse_primary(ts, pos) {
        Some(x) => x,
        None => {
            return None;
        },
    };
    let (names, q) = parse_lookups(ts, p);
    if names.len() == 0 {
        return Some((e, p));
    }
    match e {
        Expression::Variable(base) => Some(
            (Expression::Property(PropertyExpression { base, properties: names }), q),
        ),
        _ => None,
    }
}

/// `exprs := expr ("," expr)*`
pub fn parse_exprs(ts: &Vec<Token>, pos: usize) -> (r: Option<(Vec<Expression>, usize)>)
    ensures
        r.is_some() == gr_exprs(tokens_view(ts@), pos as int).is_some(),
        r matches Some(x) ==> gr_exprs(tokens_view(ts@), pos as int) == Some(
            (exprs_view(x.0@), x.1 as int),
        ) && pos < x.1 <= ts.len(),
    decreases ts.len() - pos, 21int,
{
    proof {
        lemma_barriers(tokens_view(ts@), pos as int);
    }
    let ghost tv = tokens_view(ts@);
    let mut out: Vec<Expression> = Vec::new();
    let mut p = pos;
    assert(exprs_view(out@) =~= Seq::empty());
    loop
        invariant
            pos <= p <= ts.len() || (p == pos && out.len() == 0),
            out.len() > 0 ==> pos < p,
            tv == tokens_view(ts@),
            gr_exprs(tv, pos as int) == sp_exprs(tv, pos as int, Seq::empty()),
            sp_exprs(tv, pos as int, Seq::empty()) == sp_exprs(tv, p as int, exprs_view(out@)),
        decreases ts.len() - p,
    {
        if p >= ts.len() {
            return None;
        }
        match parse_expr(ts, p) {
            Some((e, q)) => {
                let ghost before = exprs_view(out@);
                out.push(e);
                assert(exprs_view(out@) =~= before.push(e@));
                if q < ts.len() && symbol_at(ts, q, &Token::Comma) {
                    p = q + 1;
                } else {
                    return Some((out, q));
                }
            },
            None => {
                return None;
            },
        }
    }
}

/// The key of the entry at `pos`.
pub(crate) fn read_entry_key(ts: &Vec<Token>, pos: usize) -> (r: Option<String>)
    ensures
        r.is_some() == entry_key(tokens_view(ts@), pos as int).is_some(),
        r matches Some(k) ==> entry_key(tokens_view(ts@), pos as int) == Some(k@),
{
    if pos >= ts.len() || ts.len() - pos < 2 {
        return None;
    }
    match &ts[pos] {
        Token::Ident(key) => match &ts[pos + 1] {
            Token::Colon => Some(key.clone()),
            _ => None,
        },
        _ => None,
    }
}

/// `entry := name ":" expr`
pub(crate) fn parse_entry(ts: &Vec<Token>, pos: usize) -> (r: Option<(MapEntry, usize)>)
    ensures
        r.is_some() == sp_entry(tokens_view(ts@), pos as int).is_some(),
        r matches Some(x) ==> sp_entry(tokens_view(ts@), pos as int) == Some((x.0@, x.1 as int))
            && pos < x.1 <= ts.len(),
    decreases ts.len() - pos, 21int,
{
    if pos >= ts.len() || ts.len() - pos <= 2 {
        return None;
    }
    let key = match read_entry_key(ts, pos) {
        Some(key) => key,
        None => {
            return None;
        },
    };
    match parse_expr(ts, pos + 2) {
        Some((e, q)) => Some((MapEntry { key, value: e }, q)),
        None => None,
    }
}

/// `entries := entry ("," entry)*`
pub(crate) fn parse_entries(ts: &Vec<Token>, pos: usize) -> (r: Option<(Vec<MapEntry>, usize)>)
    ensures
        r.is_some() == gr_entries(tokens_view(ts@), pos as int).is_some(),
        r matches Some(x) ==> gr_entries(tokens_view(ts@), pos as int) == Some(
            (entries_model(x.0@), x.1 as int),
        ) && pos < x.1 <= ts.len(),
    decreases ts.len() - pos, 22int,
{
    proof {
        lemma_barriers(tokens_view(ts@), pos as int);
    }
    let ghost tv = tokens_view(ts@);
    let mut out: Vec<MapEntry> = Vec::new();
    let mut p = pos;
    assert(entries_model(out@) =~= Seq::empty());
    loop
        invariant
            pos <= p <= ts.len() || (p == pos && out.len() == 0),
            out.len() > 0 ==> pos < p,
            tv == tokens_view(ts@),
            gr_entries(tv, pos as int) == sp_entries(tv, pos as int, Seq::empty()),
            sp_entries(tv, pos as int, Seq::empty()) == sp_entries(
                tv,
                p as int,
                entries_model(out@),
            ),
        decreases ts.len() - p,
    {
        if p >= ts.len() {
            return None;
        }
        match parse_entry(ts, p) {
            Some((entry, q)) => {
                let ghost before = entries_model(out@);
                out.push(entry);
                assert(entries_model(out@) =~= before.push(entry@));
                if q < ts.len() && symbol_at(ts, q, &Token::Comma) {
                    p = q + 1;
                } else {
                    return Some((out, q));
                }
            },
            None => {
                return None;
            },
        }
    }
}

/// `"{" [entries] "}"`
pub fn parse_braces(ts: &Vec<Token>, pos: usize) -> (r: Option<(Vec<MapEntry>, usize)>)
    ensures
        r.is_some() == gr_braces(tokens_view(ts@), pos as int).is_some(),
        r matches Some(x) ==> gr_braces(tokens_view(ts@), pos as int) == Some(
            (entries_model(x.0@), x.1 as int),
        ) && pos < x.1 <= ts.len(),
    decreases ts.len() - pos, 6int,
{
    proof {
        lemma_barriers(tokens_view(ts@), pos as int);
    }
    if pos >= ts.len() || ts.len() - pos < 2 || !symbol_at(ts, pos, &Token::LBrace) {
        return None;
    }
    if symbol_at(ts, pos + 1, &Token::RBrace) {
        let out: Vec<MapEntry> = Vec::new();
        assert(entries_model(out@) =~= Seq::empty());
        return Some((out, pos + 2));
    }
    match parse_entries(ts, pos + 1) {
        Some((es, p)) => if symbol_at(ts, p, &Token::RBrace) {
            Some((es, p + 1))
        } else {
            None
        },
        None => None,
    }
}

/// `"(" expr ")"`
pub(crate) fn parse_group(ts: &Vec<Token>, pos: usize) -> (r: Option<(Expression, usize)>)
    ensures
        expr_agrees(r, sp_group(tokens_view(ts@), pos as int), pos, ts.len()),
    decreases ts.len() - pos, 7int,
{
    if pos >= ts.len() || !symbol_at(ts, pos, &Token::LParen) {
        return None;
    }
    match parse_expr(ts, pos + 1) {
        Some((e, p)) => if symbol_at(ts, p, &Token::RParen) {
            Some((e, p + 1))
        } else {
            None
        },
        None => None,
    }
}

/// `"[" [exprs] "]"`
pub(crate) fn parse_list(ts: &Vec<Token>, pos: usize) -> (r: Option<(Expression, usize)>)
    ensures
        expr_agrees(r, sp_list(tokens_view(ts@), pos as int), pos, ts.len()),
    decreases ts.len() - pos, 7int,
{
    if pos >= ts.len() || !symbol_at(ts, pos, &Token::LBracket) {
        return None;
    }
    if symbol_at(ts, pos + 1, &Token::RBracket) {
        let e = Expression::Literal(Literal::List(Vec::new()));
        proof {
            lemma_expr_unfold(e);
            assert(exprs_view(Seq::<Expression>::empty()) =~= Seq::empty());
        }
        return Some((e, pos + 2));
    }
    match parse_exprs(ts, pos + 1) {
        Some((es, p)) => if symbol_at(ts, p, &Token::RBracket) {
            let e = Expression::Literal(Literal::List(es));
            proof {
                lemma_expr_unfold(e);
            }
            Some((e, p + 1))
        } else {
            None
        },
        None => None,
    }
}

/// `name "(" ["*" | exprs] ")"`
pub(crate) fn parse_call(ts: &Vec<Token>, pos: usize, name: &String) -> (r: Option<(Expression, usize)>)
    ensures
        expr_agrees(r, sp_call(tokens_view(ts@), pos as int, name@), pos, ts.len()),
    decreases ts.len() - pos, 6int,
{
    proof {
        if pos + 2 >= ts.len() {
            lemma_barriers(tokens_view(ts@), pos + 2);
        }
    }
    if pos >= ts.len() || ts.len() - pos < 3 || !symbol_at(ts, pos + 1, &Token::LParen) {
        return None;
    }
    if symbol_at(ts, pos + 2, &Token::RParen) {
        let e = Expression::FunctionCall { name: name.clone(), args: Vec::new() };
        proof {
            lemma_expr_unfold(e);
            assert(exprs_view(Seq::<Expression>::empty()) =~= Seq::empty());
        }
        return Some((e, pos + 3));
    }
    if symbol_at(ts, pos + 2, &Token::Star) {
        if ts.len() - pos >= 4 && symbol_at(ts, pos + 3, &Token::RParen) {
            let e = Expression::FunctionCall { name: name.clone(), args: Vec::new() };
            proof {
                lemma_expr_unfold(e);
                assert(exprs_view(Seq::<Expression>::empty()) =~= Seq::empty());
            }
            return Some((e, pos + 4));
        }
        return None;
    }
    match parse_exprs(ts, pos + 2) {
        Some((es, p)) => if symbol_at(ts, p, &Token::RParen) {
            let e = Expression::FunctionCall { name: name.clone(), args: es };
            proof {
                lemma_expr_unfold(e);
            }
            Some((e, p + 1))
        } else {
            None
        },
        None => None,
    }
}

/// What starts with the word at `pos`.
pub(crate) fn parse_word(ts: &Vec<Token>, pos: usize, t: &String) -> (r: Option<(Expression, usize)>)
    ensures
        expr_agrees(r, sp_word(tokens_view(ts@), pos as int, t@), pos, ts.len()),
    decreases ts.len() - pos, 7int,
{
    if pos >= ts.len() {
        return None;
    }
    if upper_eq(t.as_str(), "NULL") {
        Some((Expression::null(), pos + 1))
    } else if upper_eq(t.as_str(), "TRUE") {
        Some((Expression::bool(true), pos + 1))
    } else if upper_eq(t.as_str(), "FALSE") {
        Some((Expression::bool(false), pos + 1))
    } else if is_reserved(t.as_str()) {
        None
    } else if ts.len() - pos >= 2 && symbol_at(ts, pos + 1, &Token::LParen) {
        parse_call(ts, pos, t)
    } else {
        Some((Expression::var(t.as_str()), pos + 1))
    }
}

/// `primary`: a literal, a parameter, a call, a variable or an expression
/// in parentheses.
pub(crate) fn parse_primary(ts: &Vec<Token>, pos: usize) -> (r: Option<(Expression, usize)>)
    ensures
        expr_agrees(r, sp_primary(tokens_view(ts@), pos as int), pos, ts.len()),
    decreases ts.len() - pos, 8int,
{
    if pos >= ts.len() {
        return None;
    }
    match &ts[pos] {
        Token::Integer(t) => match read_integer(t.as_str()) {
            Some(i) => Some((Expression::integer(i), pos + 1)),
            None => None,
        },
        Token::Float(t) => match read_float(t.as_str()) {
            Some(l) => Some((Expression::Literal(l), pos + 1)),
            None => None,
        },
        Token::Text(t) => Some((Expression::string(t.as_str()), pos + 1)),
        Token::Param(t) => Some((Expression::Parameter(t.clone()), pos + 1)),
        Token::LParen => parse_group(ts, pos),
        Token::LBracket => parse_list(ts, pos),
        Token::LBrace => match parse_braces(ts, pos) {
            Some((es, p)) => {
                let e = Expression::Literal(Literal::Mapping(es));
                proof {
                    lemma_expr_unfold(e);
                }
                Some((e, p))
            },
            None => None,
        },
        Token::Ident(t) => parse_word(ts, pos, t),
        _ => None,
    }
}

} // verus!
