//! The parser: a function from the tokens of a query text to its tree,
//! which follows the grammar rule by rule.

use crate::parser::ast::{
    CypherQuery, Direction, EdgePattern, MapEntry, MatchClause, NodePattern, Pattern,
    PatternElement, PropertyExpression, ReturnClause, ReturnItem, SetItem, SortItem, WhereClause,
    WriteClause,
};
use crate::parser::grammar::{
    additive_op, binary, comparison_op, direction_of, entry_key, float_of, gr_braces, gr_entries, gr_expr, gr_exprs, integer_of, is_kw, name_at, parse_spec, reserved, sp_additive, sp_additive_rest, sp_and, sp_and_rest, sp_assignment, sp_assignments, sp_braces, sp_call, sp_comparison, sp_edge, sp_entries, sp_entry, sp_expr, sp_exprs, sp_group, sp_item, sp_items, sp_list, sp_lookups, sp_node, sp_not, sp_opt_label, sp_opt_limit, sp_opt_name, sp_opt_order, sp_opt_properties, sp_opt_return, sp_opt_where, sp_or_rest, sp_pattern, sp_pattern_rest, sp_patterns, sp_postfix, sp_primary, sp_query, sp_return, sp_sort, sp_sorts, sp_statement, sp_term, sp_term_rest, sp_unary, sp_word, sp_write, term_op, tok, unary, upper, upper_char,
    lemma_nothing_behind,
};
use crate::parser::lexer::{tokenize, tokens_view, ParseError, Token};
use crate::parser::parse_expr::{
    is_reserved, keyword_at, parse_braces, parse_expr, parse_exprs, parse_lookups,
    read_integer, symbol_at,
};
use vstd::prelude::*;

verus! {

/// The name at `pos` if one stands there.
fn parse_opt_name(ts: &Vec<Token>, pos: usize) -> (r: (Option<String>, usize))
    requires
        pos <= ts.len(),
    ensures
        (crate::parser::ast::opt_text(r.0), r.1 as int) == sp_opt_name(
            tokens_view(ts@),
            pos as int,
        ),
        pos <= r.1 <= ts.len(),
{
    proof {
        let tv = tokens_view(ts@);
        if pos >= ts.len() {
            lemma_nothing_behind(tv, pos as int);
        }
        if pos + 1 >= ts.len() {
            lemma_nothing_behind(tv, pos + 1);
        }
        if pos + 2 >= ts.len() {
            lemma_nothing_behind(tv, pos + 2);
        }
    }
    if pos < ts.len() {
        match &ts[pos] {
            Token::Ident(t) => {
                if !is_reserved(t.as_str()) {
                    return (Some(t.clone()), pos + 1);
                }
            },
            _ => {},
        }
    }
    (None, pos)
}

/// The label behind a colon at `pos` if one stands there.
fn parse_opt_label(ts: &Vec<Token>, pos: usize) -> (r: (Option<String>, usize))
    requires
        pos <= ts.len(),
    ensures
        (crate::parser::ast::opt_text(r.0), r.1 as int) == sp_opt_label(
            tokens_view(ts@),
            pos as int,
        ),
        pos <= r.1 <= ts.len(),
{
    proof {
        let tv = tokens_view(ts@);
        if pos >= ts.len() {
            lemma_nothing_behind(tv, pos as int);
        }
        if pos + 1 >= ts.len() {
            lemma_nothing_behind(tv, pos + 1);
        }
        if pos + 2 >= ts.len() {
            lemma_nothing_behind(tv, pos + 2);
        }
    }
    if pos < ts.len() && ts.len() - pos >= 2 && symbol_at(ts, pos, &Token::Colon) {
        match &ts[pos + 1] {
            Token::Ident(t) => {
                return (Some(t.clone()), pos + 2);
            },
            _ => {},
        }
    }
    (None, pos)
}

/// The property map at `pos` if a brace stands there.
fn parse_opt_properties(ts: &Vec<Token>, pos: usize) -> (r: Option<(Option<Vec<MapEntry>>, usize)>)
    requires
        pos <= ts.len(),
    ensures
        r.is_some() == sp_opt_properties(tokens_view(ts@), pos as int).is_some(),
        r matches Some(x) ==> sp_opt_properties(tokens_view(ts@), pos as int) == Some(
            (crate::parser::ast::opt_entries(x.0), x.1 as int),
        ) && pos <= x.1 <= ts.len(),
{
    proof {
        let tv = tokens_view(ts@);
        if pos >= ts.len() {
            lemma_nothing_behind(tv, pos as int);
        }
        if pos + 1 >= ts.len() {
            lemma_nothing_behind(tv, pos + 1);
        }
        if pos + 2 >= ts.len() {
            lemma_nothing_behind(tv, pos + 2);
        }
    }
    if symbol_at(ts, pos, &Token::LBrace) {
        match parse_braces(ts, pos) {
            Some((es, p)) => Some((Some(es), p)),
            None => None,
        }
    } else {
        Some((None, pos))
    }
}

/// `node := "(" [name] [":" name] [properties] ")"`
fn parse_node(ts: &Vec<Token>, pos: usize) -> (r: Option<(NodePattern, usize)>)
    ensures
        r.is_some() == sp_node(tokens_view(ts@), pos as int).is_some(),
        r matches Some(x) ==> sp_node(tokens_view(ts@), pos as int) == Some((x.0@, x.1 as int))
            && pos < x.1 <= ts.len(),
{
    reveal(sp_node);
    proof {
        let tv = tokens_view(ts@);
        if pos >= ts.len() {
            lemma_nothing_behind(tv, pos as int);
        }
        if pos + 1 >= ts.len() {
            lemma_nothing_behind(tv, pos + 1);
        }
        if pos + 2 >= ts.len() {
            lemma_nothing_behind(tv, pos + 2);
        }
    }
    if !symbol_at(ts, pos, &Token::LParen) {
        return None;
    }
    let (variable, p1) = parse_opt_name(ts, pos + 1);
    let (label, p2) = parse_opt_label(ts, p1);
    match parse_opt_properties(ts, p2) {
        Some((properties, p3)) => if symbol_at(ts, p3, &Token::RParen) {
            Some((NodePattern { variable, label, properties }, p3 + 1))
        } else {
            None
        },
        None => None,
    }
}

/// The direction of an edge.
fn direction(left: bool, right: bool) -> (r: Direction)
    ensures
        r == direction_of(left, right),
{
    if left && !right {
        Direction::Left
    } else if right && !left {
        Direction::Right
    } else {
        Direction::Both
    }
}

/// `edge := ["<"] "-" ["[" [name] [":" name] [properties] "]"] "-" [">"]`
fn parse_edge(ts: &Vec<Token>, pos: usize) -> (r: Option<(EdgePattern, usize)>)
    ensures
        r.is_some() == sp_edge(tokens_view(ts@), pos as int).is_some(),
        r matches Some(x) ==> sp_edge(tokens_view(ts@), pos as int) == Some((x.0@, x.1 as int))
            && pos < x.1 <= ts.len(),
{
    reveal(sp_edge);
    proof {
        let tv = tokens_view(ts@);
        if pos >= ts.len() {
            lemma_nothing_behind(tv, pos as int);
        }
        if pos + 1 >= ts.len() {
            lemma_nothing_behind(tv, pos + 1);
        }
        if pos + 2 >= ts.len() {
            lemma_nothing_behind(tv, pos + 2);
        }
    }
    let left = symbol_at(ts, pos, &Token::Lt);
    let p1 = if left {
        pos + 1
    } else {
        pos
    };
    if !symbol_at(ts, p1, &Token::Minus) {
        return None;
    }
    let mut variable: Option<String> = None;
    let mut label: Option<String> = None;
    let mut properties: Option<Vec<MapEntry>> = None;
    if p1 >= ts.len() {
        return None;
    }
    let mut p3 = p1 + 1;
    if symbol_at(ts, p1 + 1, &Token::LBracket) {
        let (v, q1) = parse_opt_name(ts, p1 + 2);
        let (l, q2) = parse_opt_label(ts, q1);
        match parse_opt_properties(ts, q2) {
            Some((props, q3)) => {
                if !symbol_at(ts, q3, &Token::RBracket) {
                    return None;
                }
                variable = v;
                label = l;
                properties = props;
                p3 = q3 + 1;
            },
            None => {
                return None;
            },
        }
    }
    if !symbol_at(ts, p3, &Token::Minus) {
        return None;
    }
    let right = symbol_at(ts, p3 + 1, &Token::Gt);
    let end = if right {
        p3 + 2
    } else {
        p3 + 1
    };
    Some((EdgePattern { variable, label, properties, direction: direction(left, right) }, end))
}

/// `pattern := node (edge node)*`
fn parse_pattern(ts: &Vec<Token>, pos: usize) -> (r: Option<(Pattern, usize)>)
    ensures
        r.is_some() == sp_pattern(tokens_view(ts@), pos as int).is_some(),
        r matches Some(x) ==> sp_pattern(tokens_view(ts@), pos as int) == Some((x.0@, x.1 as int))
            && pos < x.1 <= ts.len(),
{
    reveal(sp_pattern);
    reveal(sp_pattern_rest);
    proof {
        let tv = tokens_view(ts@);
        if pos >= ts.len() {
            lemma_nothing_behind(tv, pos as int);
        }
        if pos + 1 >= ts.len() {
            lemma_nothing_behind(tv, pos + 1);
        }
        if pos + 2 >= ts.len() {
            lemma_nothing_behind(tv, pos + 2);
        }
    }
    let ghost tv = tokens_view(ts@);
    let (first, mut p) = match parse_node(ts, pos) {
        Some(x) => x,
        None => {
            return None;
        },
    };
    let mut elements: Vec<PatternElement> = Vec::new();
    elements.push(PatternElement::Node(first));
    assert(elements@.map_values(|e: PatternElement| e@) =~= seq![
        crate::parser::ast::ElementView::Node(first@),
    ]);
    loop
        invariant
            pos < p <= ts.len(),
            tv == tokens_view(ts@),
            sp_pattern(tv, pos as int) == sp_pattern_rest(
                tv,
                p as int,
                elements@.map_values(|e: PatternElement| e@),
            ),
        decreases ts.len() - p,
    {
        reveal(sp_pattern);
        reveal(sp_pattern_rest);
        if p < ts.len() && (symbol_at(ts, p, &Token::Minus) || symbol_at(ts, p, &Token::Lt)) {
            let (e, q) = match parse_edge(ts, p) {
                Some(x) => x,
                None => {
                    return None;
                },
            };
            let (n, q2) = match parse_node(ts, q) {
                Some(x) => x,
                None => {
                    return None;
                },
            };
            let ghost before = elements@.map_values(|e: PatternElement| e@);
            elements.push(PatternElement::Edge(e));
            elements.push(PatternElement::Node(n));
            assert(elements@.map_values(|e: PatternElement| e@) =~= before.push(
                crate::parser::ast::ElementView::Edge(e@),
            ).push(crate::parser::ast::ElementView::Node(n@)));
            p = q2;
        } else {
            return Some((Pattern { elements }, p));
        }
    }
}

/// `patterns := pattern ("," pattern)*`
fn parse_patterns(ts: &Vec<Token>, pos: usize) -> (r: Option<(Vec<Pattern>, usize)>)
    ensures
        r.is_some() == sp_patterns(tokens_view(ts@), pos as int, Seq::empty()).is_some(),
        r matches Some(x) ==> sp_patterns(tokens_view(ts@), pos as int, Seq::empty()) == Some(
            (crate::parser::ast::patterns_view(x.0@), x.1 as int),
        ) && pos < x.1 <= ts.len(),
{
    reveal(sp_patterns);
    proof {
        let tv = tokens_view(ts@);
        if pos >= ts.len() {
            lemma_nothing_behind(tv, pos as int);
        }
        if pos + 1 >= ts.len() {
            lemma_nothing_behind(tv, pos + 1);
        }
        if pos + 2 >= ts.len() {
            lemma_nothing_behind(tv, pos + 2);
        }
    }
    let ghost tv = tokens_view(ts@);
    let mut out: Vec<Pattern> = Vec::new();
    let mut p = pos;
    assert(crate::parser::ast::patterns_view(out@) =~= Seq::empty());
    loop
        invariant
            pos <= p <= ts.len() || (p == pos && out.len() == 0),
            out.len() > 0 ==> pos < p,
            tv == tokens_view(ts@),
            sp_patterns(tv, pos as int, Seq::empty()) == sp_patterns(
                tv,
                p as int,
                crate::parser::ast::patterns_view(out@),
            ),
        decreases ts.len() - p,
    {
        reveal(sp_patterns);
        if p >= ts.len() {
            return None;
        }
        match parse_pattern(ts, p) {
            Some((e, q)) => {
                let ghost before = crate::parser::ast::patterns_view(out@);
                out.push(e);
                assert(crate::parser::ast::patterns_view(out@) =~= before.push(e@));
                if q < ts.len() && symbol_at(ts, q, &Token::Comma) {
                    p = q + 1;
                } else {
                    return Some((out, q));
                }
            },
            None => {
                return None;
            },
        }
    }
}

/// `item := expr [AS name]`
fn parse_item(ts: &Vec<Token>, pos: usize) -> (r: Option<(ReturnItem, usize)>)
    ensures
        r.is_some() == sp_item(tokens_view(ts@), pos as int).is_some(),
        r matches Some(x) ==> sp_item(tokens_view(ts@), pos as int) == Some((x.0@, x.1 as int))
            && pos < x.1 <= ts.len(),
{
    reveal(sp_item);
    proof {
        let tv = tokens_view(ts@);
        if pos >= ts.len() {
            lemma_nothing_behind(tv, pos as int);
        }
        if pos + 1 >= ts.len() {
            lemma_nothing_behind(tv, pos + 1);
        }
        if pos + 2 >= ts.len() {
            lemma_nothing_behind(tv, pos + 2);
        }
    }
    let (expression, p) = match parse_expr(ts, pos) {
        Some(x) => x,
        None => {
            return None;
        },
    };
    if keyword_at(ts, p, "AS") {
        if p < ts.len() && ts.len() - p >= 2 {
            match &ts[p + 1] {
                Token::Ident(t) => {
                    return Some((ReturnItem { expression, alias: Some(t.clone()) }, p + 2));
                },
                _ => {},
            }
        }
        None
    } else {
        Some((ReturnItem { expression, alias: None }, p))
    }
}

/// `items := item ("," item)*`
fn parse_items(ts: &Vec<Token>, pos: usize) -> (r: Option<(Vec<ReturnItem>, usize)>)
    ensures
        r.is_some() == sp_items(tokens_view(ts@), pos as int, Seq::empty()).is_some(),
        r matches Some(x) ==> sp_items(tokens_view(ts@), pos as int, Seq::empty()) == Some(
            (x.0@.map_values(|i: ReturnItem| i@), x.1 as int),
        ) && pos < x.1 <= ts.len(),
{
    reveal(sp_items);
    proof {
        let tv = tokens_view(ts@);
        if pos >= ts.len() {
            lemma_nothing_behind(tv, pos as int);
        }
        if pos + 1 >= ts.len() {
            lemma_nothing_behind(tv, pos + 1);
        }
        if pos + 2 >= ts.len() {
            lemma_nothing_behind(tv, pos + 2);
        }
    }
    let ghost tv = tokens_view(ts@);
    let mut out: Vec<ReturnItem> = Vec::new();
    let mut p = pos;
    assert(out@.map_values(|i: ReturnItem| i@) =~= Seq::empty());
    loop
        invariant
            pos <= p <= ts.len() || (p == pos && out.len() == 0),
            out.len() > 0 ==> pos < p,
            tv == tokens_view(ts@),
            sp_items(tv, pos as int, Seq::empty()) == sp_items(
                tv,
                p as int,
                out@.map_values(|i: ReturnItem| i@),
            ),
        decreases ts.len() - p,
    {
        reveal(sp_items);
        if p >= ts.len() {
            return None;
        }
        match parse_item(ts, p) {
            Some((e, q)) => {
                let ghost before = out@.map_values(|i: ReturnItem| i@);
                out.push(e);
                assert(out@.map_values(|i: ReturnItem| i@) =~= before.push(e@));
                if q < ts.len() && symbol_at(ts, q, &Token::Comma) {
                    p = q + 1;
                } else {
                    return Some((out, q));
                }
            },
            None => {
                return None;
            },
        }
    }
}

/// `sort := expr [ASC | DESC]`
fn parse_sort(ts: &Vec<Token>, pos: usize) -> (r: Option<(SortItem, usize)>)
    ensures
        r.is_some() == sp_sort(tokens_view(ts@), pos as int).is_some(),
        r matches Some(x) ==> sp_sort(tokens_view(ts@), pos as int) == Some((x.0@, x.1 as int))
            && pos < x.1 <= ts.len(),
{
    reveal(sp_sort);
    proof {
        let tv = tokens_view(ts@);
        if pos >= ts.len() {
            lemma_nothing_behind(tv, pos as int);
        }
        if pos + 1 >= ts.len() {
            lemma_nothing_behind(tv, pos + 1);
        }
        if pos + 2 >= ts.len() {
            lemma_nothing_behind(tv, pos + 2);
        }
    }
    let (expression, p) = match parse_expr(ts, pos) {
        Some(x) => x,
        None => {
            return None;
        },
    };
    if keyword_at(ts, p, "DESC") {
        Some((SortItem { expression, ascending: false }, p + 1))
    } else if keyword_at(ts, p, "ASC") {
        Some((SortItem { expression, ascending: true }, p + 1))
    } else {
        Some((SortItem { expression, ascending: true }, p))
    }
}

/// `sorts := sort ("," sort)*`
fn parse_sorts(ts: &Vec<Token>, pos: usize) -> (r: Option<(Vec<SortItem>, usize)>)
    ensures
        r.is_some() == sp_sorts(tokens_view(ts@), pos as int, Seq::empty()).is_some(),
        r matches Some(x) ==> sp_sorts(tokens_view(ts@), pos as int, Seq::empty()) == Some(
            (x.0@.map_values(|i: SortItem| i@), x.1 as int),
        ) && pos < x.1 <= ts.len(),
{
    reveal(sp_sorts);
    proof {
        let tv = tokens_view(ts@);
        if pos >= ts.len() {
            lemma_nothing_behind(tv, pos as int);
        }
        if pos + 1 >= ts.len() {
            lemma_nothing_behind(tv, pos + 1);
        }
        if pos + 2 >= ts.len() {
            lemma_nothing_behind(tv, pos + 2);
        }
    }
    let ghost tv = tokens_view(ts@);
    let mut out: Vec<SortItem> = Vec::new();
    let mut p = pos;
    assert(out@.map_values(|i: SortItem| i@) =~= Seq::empty());
    loop
        invariant
            pos <= p <= ts.len() || (p == pos && out.len() == 0),
            out.len() > 0 ==> pos < p,
            tv == tokens_view(ts@),
            sp_sorts(tv, pos as int, Seq::empty()) == sp_sorts(
                tv,
                p as int,
                out@.map_values(|i: SortItem| i@),
            ),
        decreases ts.len() - p,
    {
        reveal(sp_sorts);
        if p >= ts.len() {
            return None;
        }
        match parse_sort(ts, p) {
            Some((e, q)) => {
                let ghost before = out@.map_values(|i: SortItem| i@);
                out.push(e);
                assert(out@.map_values(|i: SortItem| i@) =~= before.push(e@));
                if q < ts.len() && symbol_at(ts, q, &Token::Comma) {
                    p = q + 1;
                } else {
                    return Some((out, q));
                }
            },
            None => {
                return None;
            },
        }
    }
}

/// `[ORDER BY sorts]`
fn parse_opt_order(ts: &Vec<Token>, pos: usize) -> (r: Option<(Option<Vec<SortItem>>, usize)>)
    requires
        pos <= ts.len(),
    ensures
        r.is_some() == sp_opt_order(tokens_view(ts@), pos as int).is_some(),
        r matches Some(x) ==> sp_opt_order(tokens_view(ts@), pos as int) == Some(
            (
                match x.0 {
                    Some(s) => Some(s@.map_values(|i: SortItem| i@)),
                    None => None,
                },
                x.1 as int,
            ),
        ) && pos <= x.1 <= ts.len(),
{
    reveal(sp_opt_order);
    proof {
        let tv = tokens_view(ts@);
        if pos >= ts.len() {
            lemma_nothing_behind(tv, pos as int);
        }
        if pos + 1 >= ts.len() {
            lemma_nothing_behind(tv, pos + 1);
        }
        if pos + 2 >= ts.len() {
            lemma_nothing_behind(tv, pos + 2);
        }
    }
    if keyword_at(ts, pos, "ORDER") {
        if keyword_at(ts, pos + 1, "BY") {
            match parse_sorts(ts, pos + 2) {
                Some((s, p)) => Some((Some(s), p)),
                None => None,
            }
        } else {
            None
        }
    } else {
        Some((None, pos))
    }
}

/// `[LIMIT ["-"] integer]`
fn parse_opt_limit(ts: &Vec<Token>, pos: usize) -> (r: Option<(Option<i64>, usize)>)
    requires
        pos <= ts.len(),
    ensures
        r == match sp_opt_limit(tokens_view(ts@), pos as int) {
            Some((l, p)) => Some((l, p as usize)),
            None => None,
        },
        r matches Some(x) ==> pos <= x.1 <= ts.len() && sp_opt_limit(
            tokens_view(ts@),
            pos as int,
        ).unwrap().1 == x.1,
{
    reveal(sp_opt_limit);
    proof {
        let tv = tokens_view(ts@);
        if pos >= ts.len() {
            lemma_nothing_behind(tv, pos as int);
        }
        if pos + 1 >= ts.len() {
            lemma_nothing_behind(tv, pos + 1);
        }
        if pos + 2 >= ts.len() {
            lemma_nothing_behind(tv, pos + 2);
        }
    }
    if keyword_at(ts, pos, "LIMIT") {
        if ts.len() - pos < 2 {
            return None;
        }
        match &ts[pos + 1] {
            Token::Integer(t) => match read_integer(t.as_str()) {
                Some(i) => Some((Some(i), pos + 2)),
                None => None,
            },
            Token::Minus => {
                if ts.len() - pos < 3 {
                    return None;
                }
                match &ts[pos + 2] {
                    Token::Integer(t) => match read_integer(t.as_str()) {
                        Some(i) => Some((Some(0 - i), pos + 3)),
                        None => None,
                    },
                    _ => None,
                }
            },
            _ => None,
        }
    } else {
        Some((None, pos))
    }
}

/// `return := items [ORDER BY sorts] [LIMIT integer]`
fn parse_return(ts: &Vec<Token>, pos: usize) -> (r: Option<(ReturnClause, usize)>)
    ensures
        r.is_some() == sp_return(tokens_view(ts@), pos as int).is_some(),
        r matches Some(x) ==> sp_return(tokens_view(ts@), pos as int) == Some((x.0@, x.1 as int))
            && pos < x.1 <= ts.len(),
{
    reveal(sp_return);
    proof {
        let tv = tokens_view(ts@);
        if pos >= ts.len() {
            lemma_nothing_behind(tv, pos as int);
        }
        if pos + 1 >= ts.len() {
            lemma_nothing_behind(tv, pos + 1);
        }
        if pos + 2 >= ts.len() {
            lemma_nothing_behind(tv, pos + 2);
        }
    }
    let (items, p) = match parse_items(ts, pos) {
        Some(x) => x,
        None => {
            return None;
        },
    };
    let (order_by, q) = match parse_opt_order(ts, p) {
        Some(x) => x,
        None => {
            return None;
        },
    };
    let (limit, r) = match parse_opt_limit(ts, q) {
        Some(x) => x,
        None => {
            return None;
        },
    };
    Some((ReturnClause { items, order_by, limit }, r))
}

/// `assignment := name ("." name)+ "=" expr`
fn parse_assignment(ts: &Vec<Token>, pos: usize) -> (r: Option<(SetItem, usize)>)
    ensures
        r.is_some() == sp_assignment(tokens_view(ts@), pos as int).is_some(),
        r matches Some(x) ==> sp_assignment(tokens_view(ts@), pos as int) == Some(
            (x.0@, x.1 as int),
        ) && pos < x.1 <= ts.len(),
{
    reveal(sp_assignment);
    proof {
        let tv = tokens_view(ts@);
        if pos >= ts.len() {
            lemma_nothing_behind(tv, pos as int);
        }
        if pos + 1 >= ts.len() {
            lemma_nothing_behind(tv, pos + 1);
        }
        if pos + 2 >= ts.len() {
            lemma_nothing_behind(tv, pos + 2);
        }
    }
    if pos >= ts.len() {
        return None;
    }
    let base = match &ts[pos] {
        Token::Ident(t) => {
            if is_reserved(t.as_str()) {
                return None;
            }
            t.clone()
        },
        _ => {
            return None;
        },
    };
    let (names, p) = parse_lookups(ts, pos + 1);
    if names.len() == 0 || !symbol_at(ts, p, &Token::Eq) {
        return None;
    }
    match parse_expr(ts, p + 1) {
        Some((value, q)) => Some(
            (SetItem { property: PropertyExpression { base, properties: names }, value }, q),
        ),
        None => None,
    }
}

/// `assignments := assignment ("," assignment)*`
fn parse_assignments(ts: &Vec<Token>, pos: usize) -> (r: Option<(Vec<SetItem>, usize)>)
    ensures
        r.is_some() == sp_assignments(tokens_view(ts@), pos as int, Seq::empty()).is_some(),
        r matches Some(x) ==> sp_assignments(tokens_view(ts@), pos as int, Seq::empty()) == Some(
            (x.0@.map_values(|i: SetItem| i@), x.1 as int),
        ) && pos < x.1 <= ts.len(),
{
    reveal(sp_assignments);
    proof {
        let tv = tokens_view(ts@);
        if pos >= ts.len() {
            lemma_nothing_behind(tv, pos as int);
        }
        if pos + 1 >= ts.len() {
            lemma_nothing_behind(tv, pos + 1);
        }
        if pos + 2 >= ts.len() {
            lemma_nothing_behind(tv, pos + 2);
        }
    }
    let ghost tv = tokens_view(ts@);
    let mut out: Vec<SetItem> = Vec::new();
    let mut p = pos;
    assert(out@.map_values(|i: SetItem| i@) =~= Seq::empty());
    loop
        invariant
            pos <= p <= ts.len() || (p == pos && out.len() == 0),
            out.len() > 0 ==> pos < p,
            tv == tokens_view(ts@),
            sp_assignments(tv, pos as int, Seq::empty()) == sp_assignments(
                tv,
                p as int,
                out@.map_values(|i: SetItem| i@),
            ),
        decreases ts.len() - p,
    {
        reveal(sp_assignments);
        if p >= ts.len() {
            return None;
        }
        match parse_assignment(ts, p) {
            Some((e, q)) => {
                let ghost before = out@.map_values(|i: SetItem| i@);
                out.push(e);
                assert(out@.map_values(|i: SetItem| i@) =~= before.push(e@));
                if q < ts.len() && symbol_at(ts, q, &Token::Comma) {
                    p = q + 1;
                } else {
                    return Some((out, q));
                }
            },
            None => {
                return None;
            },
        }
    }
}

/// `write := CREATE patterns | [DETACH] DELETE exprs | SET assignments`
fn parse_write(ts: &Vec<Token>, pos: usize) -> (r: Option<(WriteClause, usize)>)
    ensures
        r.is_some() == sp_write(tokens_view(ts@), pos as int).is_some(),
        r matches Some(x) ==> sp_write(tokens_view(ts@), pos as int) == Some((x.0@, x.1 as int))
            && pos < x.1 <= ts.len(),
{
    reveal(sp_write);
    proof {
        let tv = tokens_view(ts@);
        if pos >= ts.len() {
            lemma_nothing_behind(tv, pos as int);
        }
        if pos + 1 >= ts.len() {
            lemma_nothing_behind(tv, pos + 1);
        }
        if pos + 2 >= ts.len() {
            lemma_nothing_behind(tv, pos + 2);
        }
    }
    if pos >= ts.len() {
        return None;
    }
    if keyword_at(ts, pos, "CREATE") {
        match parse_patterns(ts, pos + 1) {
            Some((patterns, p)) => Some((WriteClause::Create { patterns }, p)),
            None => None,
        }
    } else if keyword_at(ts, pos, "DETACH") {
        if keyword_at(ts, pos + 1, "DELETE") {
            match parse_exprs(ts, pos + 2) {
                Some((expressions, p)) => Some((WriteClause::Delete { expressions, detach: true }, p)),
                None => None,
            }
        } else {
            None
        }
    } else if keyword_at(ts, pos, "DELETE") {
        match parse_exprs(ts, pos + 1) {
            Some((expressions, p)) => Some((WriteClause::Delete { expressions, detach: false }, p)),
            None => None,
        }
    } else if keyword_at(ts, pos, "SET") {
        match parse_assignments(ts, pos + 1) {
            Some((items, p)) => Some((WriteClause::Assign { items }, p)),
            None => None,
        }
    } else {
        None
    }
}

/// `statement`: a read, a mixed or a write query.
fn parse_statement(ts: &Vec<Token>, pos: usize) -> (r: Option<(CypherQuery, usize)>)
    ensures
        r.is_some() == sp_statement(tokens_view(ts@), pos as int).is_some(),
        r matches Some(x) ==> sp_statement(tokens_view(ts@), pos as int) == Some(
            (x.0@, x.1 as int),
        ) && pos < x.1 <= ts.len(),
{
    reveal(sp_statement);
    proof {
        let tv = tokens_view(ts@);
        if pos >= ts.len() {
            lemma_nothing_behind(tv, pos as int);
        }
        if pos + 1 >= ts.len() {
            lemma_nothing_behind(tv, pos + 1);
        }
        if pos + 2 >= ts.len() {
            lemma_nothing_behind(tv, pos + 2);
        }
    }
    if pos >= ts.len() {
        return None;
    }
    if keyword_at(ts, pos, "MATCH") {
        let (patterns, p) = match parse_patterns(ts, pos + 1) {
            Some(x) => x,
            None => {
                return None;
            },
        };
        let mut where_clause: Option<WhereClause> = None;
        let mut q = p;
        if keyword_at(ts, p, "WHERE") {
            match parse_expr(ts, p + 1) {
                Some((condition, after)) => {
                    where_clause = Some(WhereClause { condition });
                    q = after;
                },
                None => {
                    return None;
                },
            }
        }
        let match_clause = MatchClause { patterns };
        if keyword_at(ts, q, "RETURN") {
            match parse_return(ts, q + 1) {
                Some((return_clause, r)) => Some(
                    (CypherQuery::Read { match_clause, where_clause, return_clause }, r),
                ),
                None => None,
            }
        } else {
            let (write_clause, r) = match parse_write(ts, q) {
                Some(x) => x,
                None => {
                    return None;
                },
            };
            if keyword_at(ts, r, "RETURN") {
                match parse_return(ts, r + 1) {
                    Some((ret, e)) => Some(
                        (
                            CypherQuery::Mixed {
                                match_clause,
                                where_clause,
                                write_clause,
                                return_clause: Some(ret),
                            },
                            e,
                        ),
                    ),
                    None => None,
                }
            } else {
                Some(
                    (
                        CypherQuery::Mixed {
                            match_clause,
                            where_clause,
                            write_clause,
                            return_clause: None,
                        },
                        r,
                    ),
                )
            }
        }
    } else {
        match parse_write(ts, pos) {
            Some((w, p)) => Some((CypherQuery::Write(w), p)),
            None => None,
        }
    }
}

/// The grammar, as a marker type for the parser.
#[derive(Debug, Clone, Copy)]
pub struct CypherParser;

impl CypherParser {
    /// Parses a query text.
    pub fn parse(input: &str) -> (r: Result<CypherQuery, ParseError>)
        ensures
            r.is_ok() == parse_spec(input@).is_some(),
            r matches Ok(q) ==> parse_spec(input@) == Some(q@),
            r matches Err(e) ==> e is InvalidSyntax,
    {
        parse_cypher(input)
    }
}

/// Parses a query text into its tree: the text is split into tokens, and
/// the tokens must be one statement of the grammar, with an optional
/// semicolon behind it and nothing else.
pub fn parse_cypher(input: &str) -> (r: Result<CypherQuery, ParseError>)
    ensures
        r.is_ok() == parse_spec(input@).is_some(),
        r matches Ok(q) ==> parse_spec(input@) == Some(q@),
        r matches Err(e) ==> e is InvalidSyntax,
{
    let ts = match tokenize(input) {
        Ok(ts) => ts,
        Err(e) => {
            return Err(e);
        },
    };
    let (query, p) = match parse_statement(&ts, 0) {
        Some(x) => x,
        None => {
            return Err(ParseError::InvalidSyntax("not a query".to_owned()));
        },
    };
    let end = if symbol_at(&ts, p, &Token::Semicolon) {
        p + 1
    } else {
        p
    };
    if end == ts.len() {
        Ok(query)
    } else {
        Err(ParseError::InvalidSyntax("unexpected text behind the query".to_owned()))
    }
}

} // verus!
