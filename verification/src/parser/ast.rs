//! The query tree of the Cypher subset.

use vstd::prelude::*;

verus! {

/// Direction of an edge pattern.
#[derive(Debug, Clone, Copy, PartialEq, Eq, Structural)]
pub enum Direction {
    /// Left to right: `->`.
    Right,
    /// Right to left: `<-`.
    Left,
    /// Undirected: `-`.
    Both,
}

/// Binary operators.
#[derive(Debug, Clone, Copy, PartialEq, Eq, Structural)]
pub enum BinaryOperator {
    Add,
    Subtract,
    Multiply,
    Divide,
    Modulo,
    Eq,
    Neq,
    Lt,
    Gt,
    Lte,
    Gte,
    And,
    Or,
}

/// Unary operators.
#[derive(Debug, Clone, Copy, PartialEq, Eq, Structural)]
pub enum UnaryOperator {
    Not,
    Minus,
    Plus,
}

/// A property chain `base.p1.p2...`.
#[derive(Debug)]
pub struct PropertyExpression {
    pub base: String,
    pub properties: Vec<String>,
}

/// One `key: value` entry of a property map or a map literal.
#[derive(Debug)]
pub struct MapEntry {
    pub key: String,
    pub value: Expression,
}

/// Literal values. A number that is no integer is kept as its text.
#[derive(Debug)]
pub enum Literal {
    Null,
    Boolean(bool),
    Integer(i64),
    Float(String),
    String(String),
    List(Vec<Expression>),
    Mapping(Vec<MapEntry>),
}

/// Expressions.
#[derive(Debug)]
#[allow(inconsistent_fields)]
pub enum Expression {
    /// A literal value.
    Literal(Literal),
    /// A variable reference.
    Variable(String),
    /// A parameter `$name`; reserved.
    Parameter(String),
    /// `left op right`.
    BinaryOp { left: Box<Expression>, op: BinaryOperator, right: Box<Expression> },
    /// `op expr`.
    UnaryOp { op: UnaryOperator, expr: Box<Expression> },
    /// A property chain.
    Property(PropertyExpression),
    /// `expr[index]`.
    Index { expr: Box<Expression>, index: Box<Expression> },
    /// `name(args)`; `name(*)` has no arguments.
    FunctionCall { name: String, args: Vec<Expression> },
}

/// Node pattern `(variable:Label {properties})`.
#[derive(Debug)]
pub struct NodePattern {
    pub variable: Option<String>,
    pub label: Option<String>,
    pub properties: Option<Vec<MapEntry>>,
}

/// Edge pattern `-[variable:Label {properties}]->`.
#[derive(Debug)]
pub struct EdgePattern {
    pub variable: Option<String>,
    pub label: Option<String>,
    pub properties: Option<Vec<MapEntry>>,
    pub direction: Direction,
}

/// A node or an edge of a pattern.
#[derive(Debug)]
pub enum PatternElement {
    Node(NodePattern),
    Edge(EdgePattern),
}

/// A pattern: nodes and edges in turn.
#[derive(Debug)]
pub struct Pattern {
    pub elements: Vec<PatternElement>,
}

/// `MATCH` clause.
#[derive(Debug)]
pub struct MatchClause {
    pub patterns: Vec<Pattern>,
}

/// `WHERE` clause.
#[derive(Debug)]
pub struct WhereClause {
    pub condition: Expression,
}

/// One item of a `RETURN` clause.
#[derive(Debug)]
pub struct ReturnItem {
    pub expression: Expression,
    pub alias: Option<String>,
}

/// One item of an `ORDER BY`.
#[derive(Debug)]
pub struct SortItem {
    pub expression: Expression,
    pub ascending: bool,
}

/// `RETURN` clause.
#[derive(Debug)]
pub struct ReturnClause {
    pub items: Vec<ReturnItem>,
    pub order_by: Option<Vec<SortItem>>,
    pub limit: Option<i64>,
}

/// One assignment of a `SET` clause.
#[derive(Debug)]
pub struct SetItem {
    pub property: PropertyExpression,
    pub value: Expression,
}

/// Write clauses.
#[derive(Debug)]
pub enum WriteClause {
    Create { patterns: Vec<Pattern> },
    Delete { expressions: Vec<Expression>, detach: bool },
    Assign { items: Vec<SetItem> },
}

/// A query.
#[derive(Debug)]
#[allow(inconsistent_fields)]
pub enum CypherQuery {
    /// `MATCH ... [WHERE ...] RETURN ...`.
    Read { match_clause: MatchClause, where_clause: Option<WhereClause>, return_clause: ReturnClause },
    /// A bare `CREATE`, `DELETE` or `SET`.
    Write(WriteClause),
    /// `MATCH ... [WHERE ...] CREATE|DELETE|SET ... [RETURN ...]`.
    Mixed {
        match_clause: MatchClause,
        where_clause: Option<WhereClause>,
        write_clause: WriteClause,
        return_clause: Option<ReturnClause>,
    },
}

/// Model of a property chain.
pub struct PropertyView {
    pub base: Seq<char>,
    pub properties: Seq<Seq<char>>,
}

/// Model of a literal.
pub enum LiteralView {
    Null,
    Boolean(bool),
    Integer(i64),
    Float(Seq<char>),
    String(Seq<char>),
    List(Seq<ExprView>),
    Mapping(Seq<(Seq<char>, ExprView)>),
}

/// Model of an expression.
#[allow(inconsistent_fields)]
pub enum ExprView {
    Literal(LiteralView),
    Variable(Seq<char>),
    Parameter(Seq<char>),
    BinaryOp { left: Box<ExprView>, op: BinaryOperator, right: Box<ExprView> },
    UnaryOp { op: UnaryOperator, expr: Box<ExprView> },
    Property(PropertyView),
    Index { expr: Box<ExprView>, index: Box<ExprView> },
    FunctionCall { name: Seq<char>, args: Seq<ExprView> },
}

/// Model of a node pattern.
pub struct NodeView {
    pub variable: Option<Seq<char>>,
    pub label: Option<Seq<char>>,
    pub properties: Option<Seq<(Seq<char>, ExprView)>>,
}

/// Model of an edge pattern.
pub struct EdgePatternView {
    pub variable: Option<Seq<char>>,
    pub label: Option<Seq<char>>,
    pub properties: Option<Seq<(Seq<char>, ExprView)>>,
    pub direction: Direction,
}

/// Model of a pattern element.
pub enum ElementView {
    Node(NodeView),
    Edge(EdgePatternView),
}

/// Model of a `RETURN` item.
pub struct ReturnItemView {
    pub expression: ExprView,
    pub alias: Option<Seq<char>>,
}

/// Model of a sort item.
pub struct SortItemView {
    pub expression: ExprView,
    pub ascending: bool,
}

/// Model of a `RETURN` clause.
pub struct ReturnView {
    pub items: Seq<ReturnItemView>,
    pub order_by: Option<Seq<SortItemView>>,
    pub limit: Option<i64>,
}

/// Model of a `SET` item.
pub struct SetItemView {
    pub property: PropertyView,
    pub value: ExprView,
}

/// Model of a write clause.
pub enum WriteView {
    Create { patterns: Seq<Seq<ElementView>> },
    Delete { expressions: Seq<ExprView>, detach: bool },
    Assign { items: Seq<SetItemView> },
}

/// Model of a query.
#[allow(inconsistent_fields)]
pub enum QueryView {
    Read { patterns: Seq<Seq<ElementView>>, condition: Option<ExprView>, result: ReturnView },
    Write(WriteView),
    Mixed {
        patterns: Seq<Seq<ElementView>>,
        condition: Option<ExprView>,
        write: WriteView,
        result: Option<ReturnView>,
    },
}

/// The model of an optional text.
pub open spec fn opt_text(s: Option<String>) -> Option<Seq<char>> {
    match s {
        Some(t) => Some(t@),
        None => None,
    }
}

/// The models of a list of texts.
pub open spec fn texts_view(ts: Seq<String>) -> Seq<Seq<char>> {
    ts.map_values(|t: String| t@)
}

impl View for PropertyExpression {
    type V = PropertyView;

    open spec fn view(&self) -> PropertyView {
        PropertyView { base: self.base@, properties: texts_view(self.properties@) }
    }
}

/// The model of an expression.
pub open spec fn expr_model(e: Expression) -> ExprView
    decreases e,
{
    match e {
        Expression::Literal(l) => ExprView::Literal(literal_model(l)),
        Expression::Variable(v) => ExprView::Variable(v@),
        Expression::Parameter(p) => ExprView::Parameter(p@),
        Expression::BinaryOp { left, op, right } => ExprView::BinaryOp {
            left: Box::new(expr_model(*left)),
            op,
            right: Box::new(expr_model(*right)),
        },
        Expression::UnaryOp { op, expr } => ExprView::UnaryOp {
            op,
            expr: Box::new(expr_model(*expr)),
        },
        Expression::Property(p) => ExprView::Property(p@),
        Expression::Index { expr, index } => ExprView::Index {
            expr: Box::new(expr_model(*expr)),
            index: Box::new(expr_model(*index)),
        },
        Expression::FunctionCall { name, args } => ExprView::FunctionCall {
            name: name@,
            args: Seq::new(
                args.len() as nat,
                |i: int|
                    if 0 <= i < args.len() {
                        expr_model(args[i])
                    } else {
                        ExprView::Variable(Seq::empty())
                    },
            ),
        },
    }
}

/// The model of a literal.
pub open spec fn literal_model(l: Literal) -> LiteralView
    decreases l,
{
    match l {
        Literal::Null => LiteralView::Null,
        Literal::Boolean(b) => LiteralView::Boolean(b),
        Literal::Integer(i) => LiteralView::Integer(i),
        Literal::Float(t) => LiteralView::Float(t@),
        Literal::String(s) => LiteralView::String(s@),
        Literal::List(items) => LiteralView::List(
            Seq::new(
                items.len() as nat,
                |i: int|
                    if 0 <= i < items.len() {
                        expr_model(items[i])
                    } else {
                        ExprView::Variable(Seq::empty())
                    },
            ),
        ),
        Literal::Mapping(entries) => LiteralView::Mapping(
            Seq::new(
                entries.len() as nat,
                |i: int|
                    if 0 <= i < entries.len() {
                        (entries[i].key@, expr_model(entries[i].value))
                    } else {
                        (Seq::empty(), ExprView::Variable(Seq::empty()))
                    },
            ),
        ),
    }
}

impl View for Expression {
    type V = ExprView;

    open spec fn view(&self) -> ExprView {
        expr_model(*self)
    }
}

impl View for Literal {
    type V = LiteralView;

    open spec fn view(&self) -> LiteralView {
        literal_model(*self)
    }
}

impl View for MapEntry {
    type V = (Seq<char>, ExprView);

    open spec fn view(&self) -> (Seq<char>, ExprView) {
        (self.key@, self.value@)
    }
}

/// The models of a list of expressions.
pub open spec fn exprs_view(es: Seq<Expression>) -> Seq<ExprView> {
    es.map_values(|e: Expression| e@)
}

/// The models of a list of map entries.
pub open spec fn entries_model(es: Seq<MapEntry>) -> Seq<(Seq<char>, ExprView)> {
    es.map_values(|e: MapEntry| e@)
}

/// The model of an optional property map.
pub open spec fn opt_entries(p: Option<Vec<MapEntry>>) -> Option<Seq<(Seq<char>, ExprView)>> {
    match p {
        Some(es) => Some(entries_model(es@)),
        None => None,
    }
}

/// What the model of a list, a map and a call is made of.
pub proof fn lemma_expr_unfold(e: Expression)
    ensures
        e matches Expression::FunctionCall { name, args } ==> e@ == (ExprView::FunctionCall {
            name: name@,
            args: exprs_view(args@),
        }),
        e matches Expression::Literal(Literal::List(items)) ==> e@ == ExprView::Literal(
            LiteralView::List(exprs_view(items@)),
        ),
        e matches Expression::Literal(Literal::Mapping(entries)) ==> e@ == ExprView::Literal(
            LiteralView::Mapping(entries_model(entries@)),
        ),
{
    match e {
        Expression::FunctionCall { name, args } => {
            assert(e@->FunctionCall_args =~= exprs_view(args@));
        },
        Expression::Literal(Literal::List(items)) => {
            assert(literal_model(Literal::List(items))->List_0 =~= exprs_view(items@));
        },
        Expression::Literal(Literal::Mapping(entries)) => {
            let a = literal_model(Literal::Mapping(entries))->Mapping_0;
            let b = entries_model(entries@);
            assert(a.len() == b.len());
            assert forall|i: int| 0 <= i < a.len() implies a[i] == b[i] by {
                assert(a[i] == (entries[i].key@, expr_model(entries[i].value)));
            }
            assert(a =~= b);
        },
        _ => {},
    }
}

impl View for NodePattern {
    type V = NodeView;

    open spec fn view(&self) -> NodeView {
        NodeView {
            variable: opt_text(self.variable),
            label: opt_text(self.label),
            properties: opt_entries(self.properties),
        }
    }
}

impl View for EdgePattern {
    type V = EdgePatternView;

    open spec fn view(&self) -> EdgePatternView {
        EdgePatternView {
            variable: opt_text(self.variable),
            label: opt_text(self.label),
            properties: opt_entries(self.properties),
            direction: self.direction,
        }
    }
}

impl View for PatternElement {
    type V = ElementView;

    open spec fn view(&self) -> ElementView {
        match self {
            PatternElement::Node(n) => ElementView::Node(n@),
            PatternElement::Edge(e) => ElementView::Edge(e@),
        }
    }
}

impl View for Pattern {
    type V = Seq<ElementView>;

    open spec fn view(&self) -> Seq<ElementView> {
        self.elements@.map_values(|e: PatternElement| e@)
    }
}

/// The models of a list of patterns.
pub open spec fn patterns_view(ps: Seq<Pattern>) -> Seq<Seq<ElementView>> {
    ps.map_values(|p: Pattern| p@)
}

impl View for ReturnItem {
    type V = ReturnItemView;

    open spec fn view(&self) -> ReturnItemView {
        ReturnItemView { expression: self.expression@, alias: opt_text(self.alias) }
    }
}

impl View for SortItem {
    type V = SortItemView;

    open spec fn view(&self) -> SortItemView {
        SortItemView { expression: self.expression@, ascending: self.ascending }
    }
}

impl View for ReturnClause {
    type V = ReturnView;

    open spec fn view(&self) -> ReturnView {
        ReturnView {
            items: self.items@.map_values(|i: ReturnItem| i@),
            order_by: match self.order_by {
                Some(s) => Some(s@.map_values(|i: SortItem| i@)),
                None => None,
            },
            limit: self.limit,
        }
    }
}

impl View for SetItem {
    type V = SetItemView;

    open spec fn view(&self) -> SetItemView {
        SetItemView { property: self.property@, value: self.value@ }
    }
}

impl View for WriteClause {
    type V = WriteView;

    open spec fn view(&self) -> WriteView {
        match self {
            WriteClause::Create { patterns } => WriteView::Create {
                patterns: patterns_view(patterns@),
            },
            WriteClause::Delete { expressions, detach } => WriteView::Delete {
                expressions: exprs_view(expressions@),
                detach: *detach,
            },
            WriteClause::Assign { items } => WriteView::Assign {
                items: items@.map_values(|i: SetItem| i@),
            },
        }
    }
}

impl View for CypherQuery {
    type V = QueryView;

    open spec fn view(&self) -> QueryView {
        match self {
            CypherQuery::Read { match_clause, where_clause, return_clause } => QueryView::Read {
                patterns: patterns_view(match_clause.patterns@),
                condition: match where_clause {
                    Some(w) => Some(w.condition@),
                    None => None,
                },
                result: return_clause@,
            },
            CypherQuery::Write(w) => QueryView::Write(w@),
            CypherQuery::Mixed { match_clause, where_clause, write_clause, return_clause } => QueryView::Mixed {
                patterns: patterns_view(match_clause.patterns@),
                condition: match where_clause {
                    Some(w) => Some(w.condition@),
                    None => None,
                },
                write: write_clause@,
                result: match return_clause {
                    Some(r) => Some(r@),
                    None => None,
                },
            },
        }
    }
}

impl CypherQuery {
    /// Whether the query only reads.
    pub fn is_read_only(&self) -> (r: bool)
        ensures
            r == (self@ is Read),
    {
        match self {
            CypherQuery::Read { .. } => true,
            _ => false,
        }
    }

    /// Whether the query has a `RETURN` clause.
    pub fn has_return(&self) -> (r: bool)
        ensures
            r == match self@ {
                QueryView::Read { .. } => true,
                QueryView::Mixed { result, .. } => result is Some,
                QueryView::Write(_) => false,
            },
    {
        match self {
            CypherQuery::Read { .. } => true,
            CypherQuery::Mixed { return_clause, .. } => return_clause.is_some(),
            CypherQuery::Write(_) => false,
        }
    }
}

/// The node patterns among `es`, in their order.
pub open spec fn nodes_of(es: Seq<ElementView>) -> Seq<NodeView>
    decreases es.len(),
{
    if es.len() == 0 {
        Seq::empty()
    } else {
        match es.last() {
            ElementView::Node(n) => nodes_of(es.drop_last()).push(n),
            ElementView::Edge(_) => nodes_of(es.drop_last()),
        }
    }
}

/// The edge patterns among `es`, in their order.
pub open spec fn edges_of(es: Seq<ElementView>) -> Seq<EdgePatternView>
    decreases es.len(),
{
    if es.len() == 0 {
        Seq::empty()
    } else {
        match es.last() {
            ElementView::Edge(e) => edges_of(es.drop_last()).push(e),
            ElementView::Node(_) => edges_of(es.drop_last()),
        }
    }
}

impl Pattern {
    /// A pattern of one node.
    pub fn node(node: NodePattern) -> (r: Pattern)
        ensures
            r@ == seq![ElementView::Node(node@)],
    {
        let mut elements: Vec<PatternElement> = Vec::new();
        elements.push(PatternElement::Node(node));
        let r = Pattern { elements };
        assert(r@ =~= seq![ElementView::Node(node@)]);
        r
    }

    /// A pattern of the given nodes and edges.
    pub fn with_edges(elements: Vec<PatternElement>) -> (r: Pattern)
        ensures
            r.elements == elements,
    {
        Pattern { elements }
    }

    /// The node patterns, in their order.
    pub fn nodes(&self) -> (r: Vec<&NodePattern>)
        ensures
            r@.map_values(|n: &NodePattern| n@) == nodes_of(self@),
    {
        let mut out: Vec<&NodePattern> = Vec::new();
        let mut i: usize = 0;
        let ghost es = self@;
        assert(es.subrange(0, 0) =~= Seq::empty());
        assert(out@.map_values(|n: &NodePattern| n@) =~= Seq::empty());
        while i < self.elements.len()
            invariant
                0 <= i <= self.elements.len(),
                es == self@,
                out@.map_values(|n: &NodePattern| n@) == nodes_of(es.subrange(0, i as int)),
            decreases self.elements.len() - i,
        {
            proof {
                let t = es.subrange(0, i as int + 1);
                assert(t.drop_last() =~= es.subrange(0, i as int));
                assert(t.last() == self.elements[i as int]@);
            }
            let ghost before = out@.map_values(|n: &NodePattern| n@);
            match &self.elements[i] {
                PatternElement::Node(n) => {
                    out.push(n);
                    assert(out@.map_values(|n: &NodePattern| n@) =~= before.push(n@));
                },
                PatternElement::Edge(_) => {},
            }
            i += 1;
        }
        assert(es.subrange(0, i as int) =~= es);
        out
    }

    /// The edge patterns, in their order.
    pub fn edges(&self) -> (r: Vec<&EdgePattern>)
        ensures
            r@.map_values(|e: &EdgePattern| e@) == edges_of(self@),
    {
        let mut out: Vec<&EdgePattern> = Vec::new();
        let mut i: usize = 0;
        let ghost es = self@;
        assert(es.subrange(0, 0) =~= Seq::empty());
        assert(out@.map_values(|e: &EdgePattern| e@) =~= Seq::empty());
        while i < self.elements.len()
            invariant
                0 <= i <= self.elements.len(),
                es == self@,
                out@.map_values(|e: &EdgePattern| e@) == edges_of(es.subrange(0, i as int)),
            decreases self.elements.len() - i,
        {
            proof {
                let t = es.subrange(0, i as int + 1);
                assert(t.drop_last() =~= es.subrange(0, i as int));
                assert(t.last() == self.elements[i as int]@);
            }
            let ghost before = out@.map_values(|e: &EdgePattern| e@);
            match &self.elements[i] {
                PatternElement::Edge(e) => {
                    out.push(e);
                    assert(out@.map_values(|e: &EdgePattern| e@) =~= before.push(e@));
                },
                PatternElement::Node(_) => {},
            }
            i += 1;
        }
        assert(es.subrange(0, i as int) =~= es);
        out
    }
}

impl NodePattern {
    /// A node pattern with only a variable.
    pub fn simple(variable: &str) -> (r: NodePattern)
        ensures
            r@ == (NodeView { variable: Some(variable@), label: None, properties: None }),
    {
        NodePattern { variable: Some(variable.to_owned()), label: None, properties: None }
    }

    /// A node pattern with a variable and a label.
    pub fn with_label(variable: &str, label: &str) -> (r: NodePattern)
        ensures
            r@ == (NodeView { variable: Some(variable@), label: Some(label@), properties: None }),
    {
        NodePattern {
            variable: Some(variable.to_owned()),
            label: Some(label.to_owned()),
            properties: None,
        }
    }
}

impl EdgePattern {
    /// An edge pattern with only a variable.
    pub fn simple(variable: &str, direction: Direction) -> (r: EdgePattern)
        ensures
            r@ == (EdgePatternView {
                variable: Some(variable@),
                label: None,
                properties: None,
                direction,
            }),
    {
        EdgePattern { variable: Some(variable.to_owned()), label: None, properties: None, direction }
    }

    /// An edge pattern with a variable and a label.
    pub fn with_label(variable: &str, label: &str, direction: Direction) -> (r: EdgePattern)
        ensures
            r@ == (EdgePatternView {
                variable: Some(variable@),
                label: Some(label@),
                properties: None,
                direction,
            }),
    {
        EdgePattern {
            variable: Some(variable.to_owned()),
            label: Some(label.to_owned()),
            properties: None,
            direction,
        }
    }
}

impl Expression {
    /// A variable reference.
    pub fn var(name: &str) -> (r: Expression)
        ensures
            r@ == ExprView::Variable(name@),
    {
        Expression::Variable(name.to_owned())
    }

    /// An integer literal.
    pub fn integer(value: i64) -> (r: Expression)
        ensures
            r@ == ExprView::Literal(LiteralView::Integer(value)),
    {
        assert(literal_model(Literal::Integer(value)) == LiteralView::Integer(value));
        Expression::Literal(Literal::Integer(value))
    }

    /// A string literal.
    pub fn string(value: &str) -> (r: Expression)
        ensures
            r@ == ExprView::Literal(LiteralView::String(value@)),
    {
        let text = value.to_owned();
        assert(literal_model(Literal::String(text)) == LiteralView::String(text@));
        Expression::Literal(Literal::String(text))
    }

    /// A boolean literal.
    pub fn bool(value: bool) -> (r: Expression)
        ensures
            r@ == ExprView::Literal(LiteralView::Boolean(value)),
    {
        assert(literal_model(Literal::Boolean(value)) == LiteralView::Boolean(value));
        Expression::Literal(Literal::Boolean(value))
    }

    /// The null literal.
    pub fn null() -> (r: Expression)
        ensures
            r@ == ExprView::Literal(LiteralView::Null),
    {
        assert(literal_model(Literal::Null) == LiteralView::Null);
        Expression::Literal(Literal::Null)
    }
}

} // verus!
