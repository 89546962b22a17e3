//! Expression nodes of the syntax tree.
use vstd::prelude::*;
use crate::parser::statement::{Block, Statement, duplicate_params};
use crate::parser::program::Node;
use crate::types::Types;
use crate::exception::SyntaxException;
use crate::lexer::{Lexer, TokenType, create_token};
use crate::parser::{Parser, out_of_fuel, stepped_parser, single_token_operand, operand_ends, leaf_expression, spec_precedence,
    single_operand_block, primitive_named};
use crate::parser::statement::parse_block;
use crate::text::{owned, str_eq, str_to_chars, parse_i64_digits, digits_value, all_digits, concat};

verus! {

broadcast use vstd::std_specs::vec::group_vec_axioms;

/// A position in the source text.
pub struct Location {
    pub line: i32,
    pub colon: i32,
}

pub struct Identifier {
    pub value: String,
    pub location: Location,
}

pub struct Integer {
    pub value: i64,
}

/// A floating point literal, kept as the text in which it was written.
pub struct Float {
    pub value: String,
}

pub struct LoopString {
    pub value: String,
}

pub struct Boolean {
    pub value: bool,
}

pub struct Null {}

/// A binary operation: `left operator right`.
pub struct Suffix {
    pub left: Expression,
    pub operator: String,
    pub right: Expression,
}

pub struct Parameter {
    pub identifier: Identifier,
    pub _type: Types,
}

pub struct Function {
    pub name: String,
    pub parameters: Vec<Parameter>,
    pub body: Block,
    pub predefined_type: Option<Types>,
    pub public: bool,
}

pub struct Call {
    pub identifier: Box<Expression>,
    pub parameters: Vec<Expression>,
}

pub struct Conditional {
    pub condition: Box<Expression>,
    pub body: Block,
    pub else_condition: Option<Box<Node>>,
}

pub struct Index {
    pub left: Expression,
    pub index: Expression,
}

pub struct Slice {
    pub left: Box<Expression>,
    pub begin: Box<Expression>,
    pub end: Box<Expression>,
}

pub struct Array {
    pub values: Vec<crate::parser::statement::Expression>,
    /// Line, column
    pub location: (i32, i32),
}

pub struct AssignIndex {
    pub left: Expression,
    pub index: Expression,
    pub value: Expression,
}

/// `for <condition> { ... }`
pub struct Loop {
    pub condition: Box<Expression>,
    pub body: Block,
}

/// `for var i = <from> to <till> { ... }`
pub struct LoopIterator {
    pub identifier: Identifier,
    pub body: Block,
    pub from: u32,
    pub till: u32,
}

/// `for var i in <array> { ... }`
pub struct LoopArrayIterator {
    pub identifier: Identifier,
    pub body: Block,
    pub array: Box<Expression>,
}

pub enum HashableExpression {
    Integer(Integer),
    String(LoopString),
    Boolean(Boolean),
}

pub struct Hashmap {
    pub values: Vec<(HashableExpression, Expression)>,
}

pub enum Expression {
    Identifier(Identifier),
    Integer(Integer),
    Suffix(Box<Suffix>),
    Boolean(Boolean),
    Function(Function),
    Conditional(Box<Conditional>),
    Null(Null),
    Call(Call),
    Float(Float),
    String(LoopString),
    Index(Box<Index>),
    Array(Box<Array>),
    AssignIndex(Box<AssignIndex>),
    Loop(Loop),
    LoopIterator(LoopIterator),
    LoopArrayIterator(LoopArrayIterator),
    Hashmap(Hashmap),
    Slice(Slice),
}

/// Whether `b` is a copy of the expression `a`: the same variant with the same fields, types
/// compared by their views and nested nodes by this relation.
pub open spec fn same_expr(a: Expression, b: Expression) -> bool
    decreases a,
{
    match a {
        Expression::Identifier(_) | Expression::Integer(_) | Expression::Boolean(_) | Expression::Null(_)
            | Expression::Float(_) | Expression::String(_) => b == a,
        Expression::Suffix(x) => b matches Expression::Suffix(y) && same_expr(x.left, y.left)
            && y.operator == x.operator && same_expr(x.right, y.right),
        Expression::Function(f) => b matches Expression::Function(g) && same_function(f, g),
        Expression::Conditional(x) => b matches Expression::Conditional(y) && same_expr(*x.condition, *y.condition)
            && same_block(x.body, y.body) && match x.else_condition {
                None => y.else_condition is None,
                Some(n) => y.else_condition matches Some(m) && same_node(*n, *m),
            },
        Expression::Call(x) => b matches Expression::Call(y) && same_expr(*x.identifier, *y.identifier)
            && same_exprs(x.parameters@, y.parameters@),
        Expression::Index(x) => b matches Expression::Index(y) && same_expr(x.left, y.left)
            && same_expr(x.index, y.index),
        Expression::Array(x) => b matches Expression::Array(y) && same_wrapped(x.values@, y.values@)
            && y.location == x.location,
        Expression::AssignIndex(x) => b matches Expression::AssignIndex(y) && same_expr(x.left, y.left)
            && same_expr(x.index, y.index) && same_expr(x.value, y.value),
        Expression::Loop(x) => b matches Expression::Loop(y) && same_expr(*x.condition, *y.condition)
            && same_block(x.body, y.body),
        Expression::LoopIterator(x) => b matches Expression::LoopIterator(y) && y.identifier == x.identifier
            && same_block(x.body, y.body) && y.from == x.from && y.till == x.till,
        Expression::LoopArrayIterator(x) => b matches Expression::LoopArrayIterator(y) && y.identifier == x.identifier
            && same_block(x.body, y.body) && same_expr(*x.array, *y.array),
        Expression::Hashmap(x) => b matches Expression::Hashmap(y) && same_pairs(x.values@, y.values@),
        Expression::Slice(x) => b matches Expression::Slice(y) && same_expr(*x.left, *y.left)
            && same_expr(*x.begin, *y.begin) && same_expr(*x.end, *y.end),
    }
}

/// Element by element copies of expressions.
pub open spec fn same_exprs(a: Seq<Expression>, b: Seq<Expression>) -> bool
    decreases a,
{
    a.len() == b.len() && forall|i: int| #![trigger a[i]] 0 <= i < a.len() ==> same_expr(a[i], b[i])
}

/// Element by element copies of expression statements.
pub open spec fn same_wrapped(a: Seq<crate::parser::statement::Expression>, b: Seq<crate::parser::statement::Expression>) -> bool
    decreases a,
{
    a.len() == b.len() && forall|i: int| #![trigger a[i]] 0 <= i < a.len() ==> same_expr(*a[i].expression, *b[i].expression)
}

/// Element by element copies of map entries: equal keys, copied values.
pub open spec fn same_pairs(a: Seq<(HashableExpression, Expression)>, b: Seq<(HashableExpression, Expression)>) -> bool
    decreases a,
{
    a.len() == b.len() && forall|i: int| #![trigger a[i]] 0 <= i < a.len() ==> b[i].0 == a[i].0 && same_expr(a[i].1, b[i].1)
}

/// Equal parameters: the same identifiers, types of the same view.
pub open spec fn same_params(a: Seq<Parameter>, b: Seq<Parameter>) -> bool {
    a.len() == b.len() && forall|i: int| 0 <= i < a.len() ==> (#[trigger] b[i]).identifier == a[i].identifier
        && b[i]._type@ == a[i]._type@
}

/// Whether `b` is a copy of the function literal `a`.
pub open spec fn same_function(a: Function, b: Function) -> bool
    decreases a,
{
    &&& b.name == a.name
    &&& same_params(a.parameters@, b.parameters@)
    &&& same_block(a.body, b.body)
    &&& match a.predefined_type {
        None => b.predefined_type is None,
        Some(t) => b.predefined_type matches Some(u) && u@ == t@,
    }
    &&& b.public == a.public
}

/// Whether `b` is a copy of the block `a`.
pub open spec fn same_block(a: Block, b: Block) -> bool
    decreases a,
{
    same_stmts(a.statements@, b.statements@)
}

/// Element by element copies of statements.
pub open spec fn same_stmts(a: Seq<Statement>, b: Seq<Statement>) -> bool
    decreases a,
{
    a.len() == b.len() && forall|i: int| #![trigger a[i]] 0 <= i < a.len() ==> same_stmt(a[i], b[i])
}

/// Whether `b` is a copy of the statement `a`.
pub open spec fn same_stmt(a: Statement, b: Statement) -> bool
    decreases a,
{
    match a {
        Statement::VariableDeclaration(x) => b matches Statement::VariableDeclaration(y) && y.ident == x.ident
            && same_expr(*x.value, *y.value) && y.data_type@ == x.data_type@ && y.location == x.location,
        Statement::ConstantDeclaration(x) => b matches Statement::ConstantDeclaration(y) && y.ident == x.ident
            && same_expr(*x.value, *y.value) && y.data_type@ == x.data_type@,
        Statement::Expression(x) => b matches Statement::Expression(y) && same_expr(*x.expression, *y.expression),
        Statement::Block(x) => b matches Statement::Block(y) && same_block(x, y),
        Statement::VariableAssign(x) => b matches Statement::VariableAssign(y) && y.ident == x.ident
            && same_expr(*x.value, *y.value),
        Statement::Return(x) => b matches Statement::Return(y) && same_expr(*x.expression, *y.expression),
        Statement::Import(_) => b == a,
        Statement::Export(x) => b matches Statement::Export(y) && y.names@ == x.names@,
        Statement::Break(x) => b matches Statement::Break(y) && same_expr(*x.expression, *y.expression),
        Statement::Class(x) => b matches Statement::Class(y) && y.name == x.name && same_fields(x.values@, y.values@)
            && y.inherits == x.inherits && y.public == x.public,
        Statement::Extend(x) => b matches Statement::Extend(y) && y.identifier == x.identifier
            && same_fields(x.items@, y.items@),
    }
}

/// Element by element copies of class members.
pub open spec fn same_fields(a: Seq<crate::parser::statement::ClassField>, b: Seq<crate::parser::statement::ClassField>) -> bool
    decreases a,
{
    a.len() == b.len() && forall|i: int| #![trigger a[i]] 0 <= i < a.len() ==> b[i].name == a[i].name
        && b[i].index == a[i].index && same_item(a[i].item, b[i].item)
}

/// Whether `b` is a copy of the class member `a`.
pub open spec fn same_item(a: crate::parser::statement::ClassItem, b: crate::parser::statement::ClassItem) -> bool
    decreases a,
{
    match a {
        crate::parser::statement::ClassItem::Property(x) => b matches crate::parser::statement::ClassItem::Property(y)
            && same_expr(*x.expression, *y.expression),
        crate::parser::statement::ClassItem::Method(x) => b matches crate::parser::statement::ClassItem::Method(y)
            && y.name == x.name && y.return_type@ == x.return_type@ && same_params(x.arguments@, y.arguments@)
            && same_block(x.body, y.body),
        crate::parser::statement::ClassItem::Lazy(t) => b matches crate::parser::statement::ClassItem::Lazy(u) && u@ == t@,
    }
}

/// Whether `b` is a copy of the node `a`.
pub open spec fn same_node(a: Node, b: Node) -> bool
    decreases a,
{
    match a {
        Node::Expression(e) => b matches Node::Expression(f) && same_expr(e, f),
        Node::Statement(t) => b matches Node::Statement(u) && same_stmt(t, u),
    }
}

/// Binding strength of operators, from weakest to strongest.
#[derive(Clone, Copy, PartialEq, Eq, Structural, Debug)]
pub enum Precedence {
    Lowest,
    Logical,
    Equals,
    LessGreater,
    Sum,
    Product,
    Power,
    Prefix,
    Call,
    Index,
}

pub open spec fn precedence_rank(p: Precedence) -> nat {
    match p {
        Precedence::Lowest => 0,
        Precedence::Logical => 1,
        Precedence::Equals => 2,
        Precedence::LessGreater => 3,
        Precedence::Sum => 4,
        Precedence::Product => 5,
        Precedence::Power => 6,
        Precedence::Prefix => 7,
        Precedence::Call => 8,
        Precedence::Index => 9,
    }
}

impl Precedence {
    /// Position of this precedence in the order from weakest to strongest.
    pub fn rank(&self) -> (r: u8)
        ensures
            r as nat == precedence_rank(*self),
    {
        match self {
            Precedence::Lowest => 0,
            Precedence::Logical => 1,
            Precedence::Equals => 2,
            Precedence::LessGreater => 3,
            Precedence::Sum => 4,
            Precedence::Product => 5,
            Precedence::Power => 6,
            Precedence::Prefix => 7,
            Precedence::Call => 8,
            Precedence::Index => 9,
        }
    }
}

impl Location {
    pub fn duplicate(&self) -> (r: Location)
        ensures
            r == *self,
    {
        Location { line: self.line, colon: self.colon }
    }
}

impl Identifier {
    /// An identifier with the given name at the given line and column.
    pub fn new(value: String, line: i32, colon: i32) -> (r: Identifier)
        ensures
            r.value == value,
            r.location.line == line,
            r.location.colon == colon,
    {
        Identifier { value, location: Location { line, colon } }
    }

    pub fn duplicate(&self) -> (r: Identifier)
        ensures
            r == *self,
    {
        Identifier { value: self.value.clone(), location: self.location.duplicate() }
    }
}

impl Parameter {
    /// The Arc spelling of the parameter's type.
    pub fn get_type(&self) -> (r: String)
        ensures
            r@ == crate::types::arc_type_name(self._type@),
    {
        self._type.transpile()
    }

    pub fn duplicate(&self) -> (r: Parameter)
        ensures
            r.identifier == self.identifier,
            r._type@ == self._type@,
        decreases self,
    {
        Parameter { identifier: self.identifier.duplicate(), _type: self._type.duplicate() }
    }
}

impl HashableExpression {
    pub fn duplicate(&self) -> (r: HashableExpression)
        ensures
            r == *self,
    {
        match self {
            HashableExpression::Integer(i) => HashableExpression::Integer(Integer { value: i.value }),
            HashableExpression::String(s) => HashableExpression::String(LoopString { value: s.value.clone() }),
            HashableExpression::Boolean(b) => HashableExpression::Boolean(Boolean { value: b.value }),
        }
    }
}

/// A copy of a list of expressions.
pub fn duplicate_expressions(v: &Vec<Expression>) -> (r: Vec<Expression>)
    ensures
        r@.len() == v@.len(),
        same_exprs(v@, r@),
    decreases v,
{
    let mut out: Vec<Expression> = Vec::new();
    let mut i: usize = 0;
    while i < v.len()
        invariant
            i <= v.len(),
            out@.len() == i,
            forall|j: int| #![trigger v@[j]] 0 <= j < i ==> same_expr(v@[j], out@[j]),
        decreases v.len() - i,
    {
        out.push(v[i].duplicate());
        proof { assert(same_expr(v@[i as int], out@[i as int])); }
        i = i + 1;
    }
    proof {
        assert(same_exprs(v@, out@));
    }
    out
}

fn duplicate_wrapped(v: &Vec<crate::parser::statement::Expression>) -> (r: Vec<crate::parser::statement::Expression>)
    ensures
        r@.len() == v@.len(),
        same_wrapped(v@, r@),
    decreases v,
{
    let mut out: Vec<crate::parser::statement::Expression> = Vec::new();
    let mut i: usize = 0;
    while i < v.len()
        invariant
            i <= v.len(),
            out@.len() == i,
            forall|j: int| #![trigger v@[j]] 0 <= j < i ==> same_expr(*v@[j].expression, *out@[j].expression),
        decreases v.len() - i,
    {
        out.push(v[i].duplicate());
        proof { assert(same_expr(*v@[i as int].expression, *out@[i as int].expression)); }
        i = i + 1;
    }
    proof { assert(same_wrapped(v@, out@)); }
    out
}

fn duplicate_pairs(v: &Vec<(HashableExpression, Expression)>) -> (r: Vec<(HashableExpression, Expression)>)
    ensures
        same_pairs(v@, r@),
    decreases v,
{
    let mut out: Vec<(HashableExpression, Expression)> = Vec::new();
    let mut i: usize = 0;
    while i < v.len()
        invariant
            i <= v.len(),
            out@.len() == i,
            forall|j: int| #![trigger v@[j]] 0 <= j < i ==> out@[j].0 == v@[j].0 && same_expr(v@[j].1, out@[j].1),
        decreases v.len() - i,
    {
        let k = v[i].0.duplicate();
        let e = v[i].1.duplicate();
        out.push((k, e));
        proof { assert(same_expr(v@[i as int].1, out@[i as int].1)); }
        i = i + 1;
    }
    proof { assert(same_pairs(v@, out@)); }
    out
}

impl Function {
    pub fn duplicate(&self) -> (r: Function)
        ensures
            r.name == self.name,
            r.public == self.public,
            r.parameters@.len() == self.parameters@.len(),
            same_function(*self, r),
        decreases self,
    {
        Function {
            name: self.name.clone(),
            parameters: duplicate_params(&self.parameters),
            body: self.body.duplicate(),
            predefined_type: match &self.predefined_type {
                Some(t) => Some(t.duplicate()),
                None => None,
            },
            public: self.public,
        }
    }
}

impl Expression {
    /// A copy of this expression.
    pub fn duplicate(&self) -> (r: Expression)
        ensures
            self is Identifier || self is Integer || self is Float || self is String || self is Boolean
                || self is Null ==> r == *self,
            same_expr(*self, r),
        decreases self,
    {
        match self {
            Expression::Identifier(i) => Expression::Identifier(i.duplicate()),
            Expression::Integer(i) => Expression::Integer(Integer { value: i.value }),
            Expression::Suffix(s) => Expression::Suffix(Box::new(Suffix {
                left: s.left.duplicate(),
                operator: s.operator.clone(),
                right: s.right.duplicate(),
            })),
            Expression::Boolean(b) => Expression::Boolean(Boolean { value: b.value }),
            Expression::Function(f) => Expression::Function(f.duplicate()),
            Expression::Conditional(c) => Expression::Conditional(Box::new(Conditional {
                condition: Box::new(c.condition.duplicate()),
                body: c.body.duplicate(),
                else_condition: match &c.else_condition {
                    Some(n) => Some(Box::new(n.duplicate())),
                    None => None,
                },
            })),
            Expression::Null(_) => Expression::Null(Null {}),
            Expression::Call(c) => Expression::Call(Call {
                identifier: Box::new(c.identifier.duplicate()),
                parameters: duplicate_expressions(&c.parameters),
            }),
            Expression::Float(f) => Expression::Float(Float { value: f.value.clone() }),
            Expression::String(s) => Expression::String(LoopString { value: s.value.clone() }),
            Expression::Index(i) => Expression::Index(Box::new(Index {
                left: i.left.duplicate(),
                index: i.index.duplicate(),
            })),
            Expression::Array(a) => Expression::Array(Box::new(Array {
                values: duplicate_wrapped(&a.values),
                location: (a.location.0, a.location.1),
            })),
            Expression::AssignIndex(a) => Expression::AssignIndex(Box::new(AssignIndex {
                left: a.left.duplicate(),
                index: a.index.duplicate(),
                value: a.value.duplicate(),
            })),
            Expression::Loop(l) => Expression::Loop(Loop {
                condition: Box::new(l.condition.duplicate()),
                body: l.body.duplicate(),
            }),
            Expression::LoopIterator(l) => Expression::LoopIterator(LoopIterator {
                identifier: l.identifier.duplicate(),
                body: l.body.duplicate(),
                from: l.from,
                till: l.till,
            }),
            Expression::LoopArrayIterator(l) => Expression::LoopArrayIterator(LoopArrayIterator {
                identifier: l.identifier.duplicate(),
                body: l.body.duplicate(),
                array: Box::new(l.array.duplicate()),
            }),
            Expression::Hashmap(h) => Expression::Hashmap(Hashmap { values: duplicate_pairs(&h.values) }),
            Expression::Slice(s) => Expression::Slice(Slice {
                left: Box::new(s.left.duplicate()),
                begin: Box::new(s.begin.duplicate()),
                end: Box::new(s.end.duplicate()),
            }),
        }
    }

    /// The identifier this expression holds; callers must pass an identifier.
    pub fn into_identifier(self) -> (r: Identifier)
        requires
            self is Identifier,
        ensures
            r == self->Identifier_0,
    {
        match self {
            Expression::Identifier(i) => i,
            _ => Identifier::new(String::new(), 0, 0),
        }
    }
}


/// The node a number literal stands for: an integer when its digits fit in an `i64`,
/// otherwise a float written as in the source.
pub open spec fn number_value_fits(lit: Seq<char>) -> bool {
    lit.len() > 0 && all_digits(lit) && digits_value(lit) <= i64::MAX
}

/// Parses the number literal under the cursor: an `Integer` when its text is digits whose value
/// fits in an `i64`, otherwise a `Float` holding the text.
pub fn parse_number_literal(p: &mut Parser) -> (r: Result<Node, SyntaxException>)
    requires
        old(p).wf(),
    ensures
        *final(p) == *old(p),
        (old(p).cur().token == TokenType::Integer || old(p).cur().token == TokenType::Float) ==> r is Ok,
        r matches Ok(n) ==> (n is Expression && ({
            let lit = old(p).cur().literal@;
            if number_value_fits(lit) {
                n->Expression_0 == Expression::Integer(Integer { value: digits_value(lit) as i64 })
            } else {
                n->Expression_0 is Float && n->Expression_0->Float_0.value@ == lit
            }
        })),
{
    let value = p.lexer.get_current_token().literal.clone();
    let chars = str_to_chars(value.as_str());
    match parse_i64_digits(chars.as_slice()) {
        Some(v) => Ok(Node::Expression(Expression::Integer(Integer { value: v }))),
        None => {
            let kind = p.lexer.get_current_token().token;
            if kind == TokenType::Integer || kind == TokenType::Float {
                Ok(Node::Expression(Expression::Float(Float { value })))
            } else {
                Err(SyntaxException::CustomMessage(owned("Neither a Float or an Integer"), None))
            }
        },
    }
}

/// Parses `-<number>`: the negated integer, or the float text with a leading '-'.
pub fn parse_negative_number(p: &mut Parser) -> (r: Result<Node, SyntaxException>)
    requires
        old(p).wf(),
    ensures
        final(p).wf(),
        Lexer::advanced(&old(p).lexer, &final(p).lexer),
        final(p).fuel == old(p).fuel,
        final(p).defined_types == old(p).defined_types,
        final(p).prefix_parser == old(p).prefix_parser,
        final(p).infix_parser == old(p).infix_parser,
        (final(p).cur().token == TokenType::Integer || final(p).cur().token == TokenType::Float) ==> r is Ok,
        r matches Ok(n) ==> (n is Expression && ({
            let lit = final(p).cur().literal@;
            if number_value_fits(lit) {
                n->Expression_0 == Expression::Integer(Integer { value: (-digits_value(lit)) as i64 })
            } else {
                n->Expression_0 is Float && n->Expression_0->Float_0.value@ == seq!['-'] + lit
            }
        })),
{
    p.lexer.next_token();
    let value = p.lexer.get_current_token().literal.clone();
    let chars = str_to_chars(value.as_str());
    match parse_i64_digits(chars.as_slice()) {
        Some(v) => Ok(Node::Expression(Expression::Integer(Integer { value: -v }))),
        None => {
            let kind = p.lexer.get_current_token().token;
            if kind == TokenType::Integer || kind == TokenType::Float {
                let text = concat("-", value.as_str());
                proof { reveal_strlit("-"); }
                Ok(Node::Expression(Expression::Float(Float { value: text })))
            } else {
                Err(SyntaxException::CustomMessage(owned("Neither a Float or an Integer"), None))
            }
        },
    }
}

/// A boolean literal: true exactly when the token's text is "true".
pub fn parse_boolean(p: &mut Parser) -> (r: Result<Node, SyntaxException>)
    requires
        old(p).wf(),
    ensures
        *final(p) == *old(p),
        r == Ok::<Node, SyntaxException>(Node::Expression(Expression::Boolean(Boolean {
            value: old(p).cur().literal@ == "true"@,
        }))),
{
    proof { reveal_strlit("true"); }
    let value = str_eq(p.lexer.get_current_token().literal.as_str(), "true");
    Ok(Node::Expression(Expression::Boolean(Boolean { value })))
}

/// `!<boolean>`: false exactly when the token after '!' reads "true".
pub fn parse_inverted_boolean(p: &mut Parser) -> (r: Result<Node, SyntaxException>)
    requires
        old(p).wf(),
    ensures
        final(p).wf(),
        Lexer::advanced(&old(p).lexer, &final(p).lexer),
        final(p).fuel == old(p).fuel,
        final(p).defined_types == old(p).defined_types,
        final(p).prefix_parser == old(p).prefix_parser,
        final(p).infix_parser == old(p).infix_parser,
        r == Ok::<Node, SyntaxException>(Node::Expression(Expression::Boolean(Boolean {
            value: final(p).cur().literal@ != "true"@,
        }))),
{
    p.lexer.next_token();
    proof { reveal_strlit("true"); }
    let value = !str_eq(p.lexer.get_current_token().literal.as_str(), "true");
    Ok(Node::Expression(Expression::Boolean(Boolean { value })))
}

/// `null`.
pub fn parse_expression_null(p: &mut Parser) -> (r: Result<Node, SyntaxException>)
    requires
        old(p).wf(),
    ensures
        *final(p) == *old(p),
        r == Ok::<Node, SyntaxException>(Node::Expression(Expression::Null(Null {}))),
{
    Ok(Node::Expression(Expression::Null(Null {})))
}

/// A string literal holding the token's text.
pub fn parse_string_literal(p: &mut Parser) -> (r: Result<Node, SyntaxException>)
    requires
        old(p).wf(),
    ensures
        *final(p) == *old(p),
        r == Ok::<Node, SyntaxException>(Node::Expression(Expression::String(LoopString {
            value: old(p).cur().literal,
        }))),
{
    let value = p.lexer.get_current_token().literal.clone();
    Ok(Node::Expression(Expression::String(LoopString { value })))
}

/// Hashmap literals are not supported yet: always an error.
pub fn parse_expression_hashmap(p: &mut Parser) -> (r: Result<Node, SyntaxException>)
    requires
        old(p).wf(),
    ensures
        *final(p) == *old(p),
        r == Err::<Node, SyntaxException>(SyntaxException::Unknown),
{
    Err(SyntaxException::Unknown)
}

/// The identifier under the cursor, at the cursor's line and column.
pub fn parse_identifier(p: &mut Parser) -> (r: Result<Node, SyntaxException>)
    requires
        old(p).wf(),
    ensures
        *final(p) == *old(p),
        r == Ok::<Node, SyntaxException>(Node::Expression(Expression::Identifier(Identifier {
            value: old(p).cur().literal,
            location: Location { line: old(p).lexer.current_line, colon: old(p).lexer.current_col },
        }))),
{
    let value = p.lexer.get_current_token().literal.clone();
    Ok(Node::Expression(Expression::Identifier(Identifier::new(value, p.lexer.current_line, p.lexer.current_col))))
}

/// Whether `[` is followed by `n` single-token operands separated by commas and a `]`.
pub open spec fn operand_list_follows(p: Parser, n: nat) -> bool {
    &&& n > 0
    &&& forall|j: int| 0 <= j < 2 * n ==> (#[trigger] ahead(p.lexer, j)).token != TokenType::Eof
    &&& forall|j: int| 0 <= j < n ==> #[trigger] operand_at(p, 1 + 2 * j)
    &&& forall|j: int| 0 <= j < n - 1 ==> (#[trigger] ahead(p.lexer, 2 + 2 * j)).token == TokenType::Comma
    &&& ahead(p.lexer, (2 * n) as int).token == TokenType::RightBracket
}

/// Whether a single-token operand that ends an expression is `k` tokens after the cursor.
pub open spec fn operand_at(p: Parser, k: int) -> bool {
    let q = advanced_by(p, k as nat);
    &&& single_token_operand(q)
    &&& operand_ends(q, Precedence::Lowest)
    &&& q.cur().token != TokenType::RightBracket
    &&& q.cur().token != TokenType::Comma
}

/// `[a, b, ...]`: the elements up to ']' or the end; elements that fail to parse are left out.
pub fn parse_expression_array(p: &mut Parser) -> (r: Result<Node, SyntaxException>)
    requires
        old(p).wf(),
    ensures
        Parser::moved_on(old(p), final(p)),
        r matches Ok(n) ==> n is Expression && n->Expression_0 is Array,
        r is Ok ==> (final(p).cur().token == TokenType::RightBracket || final(p).cur().token == TokenType::Eof),
        old(p).fuel > 0 && old(p).cur().token != TokenType::Eof && ahead(old(p).lexer, 1).token == TokenType::RightBracket
            ==> (r matches Ok(n) && n->Expression_0->Array_0.values@.len() == 0),
        old(p).fuel > 1 && operand_after(*old(p)) && stepped_parser(*old(p)).cur().token != TokenType::RightBracket
            && ahead(old(p).lexer, 2).token == TokenType::RightBracket
            ==> (r matches Ok(n) && n->Expression_0->Array_0.values@.len() == 1
                && leaf_expression(stepped_parser(*old(p)), *n->Expression_0->Array_0.values@[0].expression)),
        forall|n: nat| #[trigger] operand_list_follows(*old(p), n) && old(p).fuel > n + 1 ==> (r matches Ok(a)
            && a->Expression_0->Array_0.values@.len() == n
            && forall|j: int| 0 <= j < n ==> leaf_expression(advanced_by(*old(p), (1 + 2 * j) as nat),
                *(#[trigger] a->Expression_0->Array_0.values@[j]).expression)),
    decreases old(p).fuel,
{
    let ghost start = *old(p);
    let ghost s1 = stepped_parser(start);
    let ghost m: nat = choose|n: nat| operand_list_follows(start, n) && start.fuel > n + 1;
    let ghost multi = operand_list_follows(start, m) && start.fuel > m + 1;
    proof {
        if multi {
            lemma_advanced(start, 1);
            assert(advanced_by(start, 1) == s1);
        }
    }
    let ghost none = old(p).fuel > 0 && old(p).cur().token != TokenType::Eof
        && ahead(old(p).lexer, 1).token == TokenType::RightBracket;
    let ghost single = old(p).fuel > 1 && operand_after(start) && s1.cur().token != TokenType::RightBracket
        && ahead(start.lexer, 2).token == TokenType::RightBracket;
    proof {
        if start.cur().token != TokenType::Eof {
            lemma_step(start);
            if s1.cur().token != TokenType::Eof {
                lemma_step(s1);
            }
        }
    }
    if !p.spend() {
        return Err(out_of_fuel());
    }
    let mut elements: Vec<crate::parser::statement::Expression> = Vec::new();
    p.lexer.next_token();
    while p.lexer.get_current_token().token != TokenType::RightBracket
        && p.lexer.get_current_token().token != TokenType::Eof
        invariant
            Parser::moved_on(old(p), p),
            p.fuel < old(p).fuel,
            start == *old(p),
            s1 == stepped_parser(start),
            none == (old(p).fuel > 0 && old(p).cur().token != TokenType::Eof
                && ahead(old(p).lexer, 1).token == TokenType::RightBracket),
            none ==> elements@.len() == 0 && p.lexer == s1.lexer && s1.cur().token == TokenType::RightBracket,
            single == (old(p).fuel > 1 && operand_after(start) && s1.cur().token != TokenType::RightBracket
                && ahead(start.lexer, 2).token == TokenType::RightBracket),
            single ==> ({
                ||| (elements@.len() == 0 && p.lexer == s1.lexer && p.fuel == start.fuel - 1)
                ||| (elements@.len() == 1 && leaf_expression(s1, *elements@[0].expression)
                    && p.cur().token == TokenType::RightBracket)
            }),
            single ==> stepped_parser(s1).cur().token == TokenType::RightBracket,
            multi == (operand_list_follows(start, m) && start.fuel > m + 1),
            start.wf(),
            multi ==> elements@.len() <= m && p.fuel == start.fuel - 1 - elements@.len()
                && p.lexer == advanced_by(start, (if elements@.len() < m { 1 + 2 * elements@.len() } else { 2 * m }) as nat).lexer
                && forall|j: int| 0 <= j < elements@.len() ==> leaf_expression(advanced_by(start, (1 + 2 * j) as nat),
                    *(#[trigger] elements@[j]).expression),
        decreases p.lexer.tokens@.len() - p.lexer.pos,
    {
        let ghost before = p.lexer.pos;
        let ghost at = *p;
        let ghost k = elements@.len() as int;
        proof {
            if multi {
                if k == m {
                    lemma_advanced(start, 2 * m);
                    assert(false);
                }
                assert(operand_at(start, 1 + 2 * k));
                lemma_advanced(start, (1 + 2 * k) as nat);
                let q = advanced_by(start, (1 + 2 * k) as nat);
                assert(p.lexer == q.lexer);
                assert(single_token_operand(*p) == single_token_operand(q));
                assert(operand_ends(*p, Precedence::Lowest) == operand_ends(q, Precedence::Lowest));
            }
        }
        proof {
            if single {
                assert(single_token_operand(*p) == single_token_operand(s1));
                assert(operand_ends(*p, Precedence::Lowest) == operand_ends(s1, Precedence::Lowest));
            }
        }
        let exp = p.parse_expression(Precedence::Lowest);
        if let Ok(Node::Expression(exp)) = exp {
            proof {
                if single {
                    assert(leaf_expression(at, exp));
                    assert(leaf_expression(s1, exp));
                }
            }
            proof {
                if multi {
                    assert(leaf_expression(at, exp) == leaf_expression(advanced_by(start, (1 + 2 * k) as nat), exp));
                }
            }
            elements.push(crate::parser::statement::Expression { expression: Box::new(exp) });
        }
        proof {
            if multi {
                assert(elements@.len() == k + 1);
            }
        }
        p.lexer.next_token();
        proof {
            if multi {
                lemma_advanced(start, (2 + 2 * k) as nat);
                assert(p.lexer == advanced_by(start, (2 + 2 * k) as nat).lexer);
            }
        }
        if p.lexer.get_current_token().token == TokenType::Comma {
            p.lexer.next_token();
            proof {
                if multi {
                    assert(k + 1 < m);
                    lemma_advanced(start, (3 + 2 * k) as nat);
                }
            }
        }
    }
    proof {
        if multi && elements@.len() < m {
            let k = elements@.len() as int;
            assert(operand_at(start, 1 + 2 * k));
            lemma_advanced(start, (1 + 2 * k) as nat);
            assert(false);
        }
        assert forall|n: nat| #[trigger] operand_list_follows(start, n) && start.fuel > n + 1 implies n == m by {
            assert(operand_list_follows(start, m) && start.fuel > m + 1);
            if n < m {
                assert(ahead(start.lexer, 2 + 2 * (n - 1)).token == TokenType::Comma);
            } else if n > m {
                assert(ahead(start.lexer, 2 + 2 * (m - 1)).token == TokenType::Comma);
            }
        }
    }
    Ok(Node::Expression(Expression::Array(Box::new(Array {
        values: elements,
        location: (p.lexer.current_line, p.lexer.current_col),
    }))))
}


/// Whether the cursor is on `if`, followed by a single-token condition, a brace, a single
/// single-token statement, the closing brace and no `else`.
/// Whether the cursor is on `if` followed by a single-token condition, a block of one
/// operand, `else` and another block of one operand.
pub open spec fn if_else_follows(p: Parser) -> bool {
    let condition = stepped_parser(p);
    let body_start = stepped_parser(stepped_parser(condition));
    &&& p.cur().token != TokenType::Eof
    &&& single_token_operand(condition)
    &&& condition.cur().token != TokenType::LeftParenthesis
    &&& operand_ends(condition, Precedence::Lowest)
    &&& ahead(p.lexer, 2).token == TokenType::LeftBrace
    &&& single_operand_block(body_start)
    &&& ahead(p.lexer, 5).token == TokenType::Else
    &&& ahead(p.lexer, 6).token == TokenType::LeftBrace
    &&& single_operand_block(advanced_by(p, 7))
}

pub open spec fn simple_conditional_follows(p: Parser) -> bool {
    let condition = stepped_parser(p);
    let body_start = stepped_parser(stepped_parser(condition));
    &&& single_token_operand(condition)
    &&& condition.cur().token != TokenType::LeftParenthesis
    &&& operand_ends(condition, Precedence::Lowest)
    &&& ahead(p.lexer, 2).token == TokenType::LeftBrace
    &&& single_operand_block(body_start)
    &&& ahead(p.lexer, 5).token != TokenType::Else
}

/// `if <condition> { ... } [else ...]`, with or without parentheses around the condition.
pub fn parse_conditional(p: &mut Parser) -> (r: Result<Node, SyntaxException>)
    requires
        old(p).wf(),
    ensures
        Parser::moved_on(old(p), final(p)),
        r matches Ok(n) ==> n is Expression && n->Expression_0 is Conditional,
        old(p).fuel > 6 && simple_conditional_follows(*old(p)) ==> ({
            let c = r->Ok_0->Expression_0->Conditional_0;
            let body_start = stepped_parser(stepped_parser(stepped_parser(*old(p))));
            &&& r matches Ok(n) && n is Expression && n->Expression_0 is Conditional
            &&& leaf_expression(stepped_parser(*old(p)), *c.condition)
            &&& c.body.statements@.len() == 1
            &&& c.body.statements@[0] is Expression
            &&& leaf_expression(body_start, *c.body.statements@[0]->Expression_0.expression)
            &&& c.else_condition is None
        }),
        old(p).fuel > 14 && if_else_follows(*old(p)) ==> ({
            let c = r->Ok_0->Expression_0->Conditional_0;
            let body_start = stepped_parser(stepped_parser(stepped_parser(*old(p))));
            &&& r matches Ok(n) && n is Expression && n->Expression_0 is Conditional
            &&& leaf_expression(stepped_parser(*old(p)), *c.condition)
            &&& c.body.statements@.len() == 1
            &&& c.body.statements@[0] is Expression
            &&& leaf_expression(body_start, *c.body.statements@[0]->Expression_0.expression)
            &&& c.else_condition matches Some(e) && *e is Statement && e->Statement_0 is Block
                && e->Statement_0->Block_0.statements@.len() == 1 && e->Statement_0->Block_0.statements@[0] is Expression
                && leaf_expression(advanced_by(*old(p), 7), *e->Statement_0->Block_0.statements@[0]->Expression_0.expression)
        }),
    decreases old(p).fuel,
{
    let ghost start = *old(p);
    let ghost ie = old(p).fuel > 14 && if_else_follows(*old(p));
    let ghost simple = (old(p).fuel > 6 && simple_conditional_follows(*old(p))) || ie;
    let ghost s1 = stepped_parser(start);
    let ghost s2 = stepped_parser(s1);
    let ghost s3 = stepped_parser(s2);
    proof {
        if simple {
            let n = start.lexer.tokens@.len();
            assert(n == start.lexer.tokens.len());
            assert(start.lexer.pos + 2 < n);
            assert(start.lexer.tokens@[start.lexer.pos + 2].token != TokenType::Eof);
            assert(start.lexer.pos + 3 < n);
            assert(s1.lexer.pos == start.lexer.pos + 1);
            assert(s2.lexer.pos == start.lexer.pos + 2);
            assert(s3.lexer.pos == start.lexer.pos + 3);
        }
    }
    if !p.spend() {
        return Err(out_of_fuel());
    }
    p.lexer.next_token();
    let ghost at_condition = *p;
    proof {
        if simple {
            assert(p.lexer == s1.lexer);
            assert(single_token_operand(*p) == single_token_operand(s1));
            assert(operand_ends(*p, Precedence::Lowest) == operand_ends(s1, Precedence::Lowest));
        }
    }
    let uses_parenthesis = p.current_token_is(TokenType::LeftParenthesis);
    let condition_node = if uses_parenthesis {
        parse_grouped_expression_without_param(p)?
    } else {
        p.parse_expression(Precedence::Lowest)?
    };
    proof {
        if simple {
            assert(condition_node matches Node::Expression(e) && leaf_expression(at_condition, e));
            assert(condition_node matches Node::Expression(e) && leaf_expression(s1, e));
            assert(p.fuel == start.fuel - 2);
        }
    }
    p.lexer.next_token();
    proof {
        if simple {
            assert(p.lexer == s2.lexer);
        }
    }
    if let Node::Expression(exp) = condition_node {
        if p.current_token_is(TokenType::RightParenthesis) != uses_parenthesis {
            if uses_parenthesis {
                let message = owned("Syntax  -> for (<condition>) { <code> }\nExample -> if (i < 3) { println(i) }\n\nA loop can be with or without parenthesis");
                return Err(SyntaxException::CustomMessage(owned("expected: RightParenthesis"), Some(message)));
            } else {
                let message = owned("Syntax  -> for <condition> { <code> }\nExample -> if i < 3 { println(i) }\n\nA loop can be with or without parenthesis");
                return Err(SyntaxException::CustomMessage(owned("expected: NoParenthesis"), Some(message)));
            }
        } else if p.lexer.get_current_token().token == TokenType::RightParenthesis {
            p.lexer.next_token();
        }
        p.current_token_is_result(TokenType::LeftBrace)?;
        p.lexer.next_token();
        let ghost at_body = *p;
        proof {
            if simple {
                assert(p.lexer == s3.lexer);
                assert(single_operand_block(*p) == single_operand_block(s3));
            }
        }
        let body = parse_block(p)?;
        proof {
            if simple {
                assert(leaf_expression(at_body, *body.statements@[0]->Expression_0.expression));
                assert(leaf_expression(s3, *body.statements@[0]->Expression_0.expression));
                assert(p.lexer.pos == start.lexer.pos + 4);
                assert(p.lexer.peek() == ahead(start.lexer, 5));
            }
        }
        p.current_token_is_result(TokenType::RightBrace)?;
        if p.next_token_is(TokenType::Else) {
            p.lexer.next_token();
            proof {
                if ie {
                    assert forall|j: int| 0 <= j < 7 implies (#[trigger] ahead(start.lexer, j)).token != TokenType::Eof by {
                        assert(start.lexer.tokens@.len() == start.lexer.tokens.len());
                        if j == 3 {
                            assert(s3.cur() == ahead(start.lexer, 3));
                        }
                        if j == 4 {
                            assert(ahead(start.lexer, 5).token == TokenType::Else);
                            lemma_advanced(start, 4);
                        }
                    }
                    lemma_advanced(start, 5);
                    lemma_advanced(start, 7);
                    assert(p.lexer == advanced_by(start, 5).lexer);
                    assert(stepped_parser(stepped_parser(*p)).lexer == advanced_by(start, 7).lexer);
                    assert(single_operand_block(stepped_parser(stepped_parser(*p))) == single_operand_block(advanced_by(start, 7)));
                }
            }
            let ghost at_else = *p;
            let else_part = parse_else(p)?;
            proof {
                if ie {
                    assert(else_part matches Some(e) && *e is Statement && e->Statement_0 is Block
                        && leaf_expression(stepped_parser(stepped_parser(at_else)), *e->Statement_0->Block_0.statements@[0]->Expression_0.expression)
                            == leaf_expression(advanced_by(start, 7), *e->Statement_0->Block_0.statements@[0]->Expression_0.expression));
                }
            }
            return create_conditional(Box::new(exp), body, else_part);
        }
        return create_conditional(Box::new(exp), body, None);
    }
    Err(SyntaxException::Unknown)
}

/// The part after `else`: a block, or an expression (such as another `if`).
pub fn parse_else(p: &mut Parser) -> (r: Result<Option<Box<Node>>, SyntaxException>)
    requires
        old(p).wf(),
    ensures
        Parser::moved_on(old(p), final(p)),
        r matches Ok(o) ==> o is Some,
        old(p).fuel > 1 && old(p).cur().token != TokenType::Eof && ahead(old(p).lexer, 1).token == TokenType::LeftBrace
            && ahead(old(p).lexer, 2).token == TokenType::RightBrace ==> (r matches Ok(Some(n))
                && *n is Statement && n->Statement_0 is Block && n->Statement_0->Block_0.statements@.len() == 0),
        old(p).fuel > 1 && operand_after(*old(p)) && ahead(old(p).lexer, 1).token != TokenType::LeftBrace
            ==> (r matches Ok(Some(n)) && *n is Expression && leaf_expression(stepped_parser(*old(p)), n->Expression_0)),
        old(p).fuel > 5 && old(p).cur().token != TokenType::Eof && ahead(old(p).lexer, 1).token == TokenType::LeftBrace
            && single_operand_block(stepped_parser(stepped_parser(*old(p)))) ==> (r matches Ok(Some(n))
                && *n is Statement && n->Statement_0 is Block && n->Statement_0->Block_0.statements@.len() == 1
                && n->Statement_0->Block_0.statements@[0] is Expression
                && leaf_expression(stepped_parser(stepped_parser(*old(p))),
                    *n->Statement_0->Block_0.statements@[0]->Expression_0.expression))
            && final(p).lexer == stepped_parser(stepped_parser(stepped_parser(*old(p)))).lexer,
    decreases old(p).fuel,
{
    let ghost start = *old(p);
    let ghost s1 = stepped_parser(start);
    let ghost s2 = stepped_parser(s1);
    let ghost blk = old(p).fuel > 5 && old(p).cur().token != TokenType::Eof && ahead(old(p).lexer, 1).token == TokenType::LeftBrace
        && single_operand_block(s2);
    proof {
        if start.cur().token != TokenType::Eof {
            lemma_step(start);
            if s1.cur().token != TokenType::Eof {
                lemma_step(s1);
            }
        }
    }
    if !p.spend() {
        return Err(out_of_fuel());
    }
    p.lexer.next_token();
    if !p.current_token_is(TokenType::LeftBrace) {
        let ghost at = *p;
        proof {
            if start.cur().token != TokenType::Eof {
                assert(single_token_operand(*p) == single_token_operand(s1));
                assert(operand_ends(*p, Precedence::Lowest) == operand_ends(s1, Precedence::Lowest));
            }
        }
        let e = p.parse_expression(Precedence::Lowest)?;
        proof {
            if old(p).fuel > 1 && operand_after(start) {
                assert(e matches Node::Expression(x) && leaf_expression(at, x));
                assert(e matches Node::Expression(x) && leaf_expression(s1, x));
            }
        }
        return Ok(Some(Box::new(e)));
    }
    p.lexer.next_token();
    let ghost at_block = *p;
    proof {
        if blk {
            assert(p.lexer == s2.lexer);
            assert(single_operand_block(*p) == single_operand_block(s2));
        }
    }
    let else_condition = parse_block(p)?;
    proof {
        if blk {
            lemma_step(s2);
            assert(leaf_expression(at_block, *else_condition.statements@[0]->Expression_0.expression)
                == leaf_expression(s2, *else_condition.statements@[0]->Expression_0.expression));
            assert(p.lexer == stepped_parser(s2).lexer);
        }
    }
    p.current_token_is_result(TokenType::RightBrace)?;
    Ok(Some(Box::new(Node::Statement(Statement::Block(else_condition)))))
}

/// An `if` node from its parts.
pub fn create_conditional(
    condition: Box<Expression>,
    body: Block,
    else_condition: Option<Box<Node>>,
) -> (r: Result<Node, SyntaxException>)
    ensures
        r == Ok::<Node, SyntaxException>(Node::Expression(Expression::Conditional(Box::new(Conditional {
            condition,
            body,
            else_condition,
        })))),
{
    Ok(Node::Expression(Expression::Conditional(Box::new(Conditional { condition, body, else_condition }))))
}

/// The parameters of a function: `<type> <name>` pairs separated by commas.
pub fn parse_arguments(p: &mut Parser) -> (r: Result<Vec<Parameter>, SyntaxException>)
    requires
        old(p).wf(),
    ensures
        Parser::moved_on(old(p), final(p)),
        final(p).defined_types == old(p).defined_types,
        r is Err ==> r == Err::<Vec<Parameter>, SyntaxException>(SyntaxException::ExpectedToken(TokenType::RightParenthesis)),
        ahead(old(p).lexer, 1).token != TokenType::Identifier ==> (r matches Ok(v) && v@.len() == 0)
            && *final(p) == stepped_parser(*old(p)),
        primitive_parameter_follows(old(p).lexer) ==> (r matches Ok(v) && v@.len() == 1
            && v@[0].identifier.value == ahead(old(p).lexer, 2).literal
            && v@[0]._type == Types::Basic(primitive_named(ahead(old(p).lexer, 1).literal@)->0)),
        forall|n: nat| #[trigger] primitive_parameters_follow(*old(p), n) ==> (r matches Ok(v) && v@.len() == n
            && forall|j: int| 0 <= j < n ==> (#[trigger] v@[j]).identifier.value == ahead(old(p).lexer, 2 + 3 * j).literal
                && v@[j]._type == Types::Basic(primitive_named(ahead(old(p).lexer, 1 + 3 * j).literal@)->0)),
{
    let ghost start = *old(p);
    let ghost s1 = stepped_parser(start);
    let ghost m: nat = choose|n: nat| primitive_parameters_follow(start, n);
    let ghost multi = primitive_parameters_follow(start, m);
    let ghost prim = primitive_parameter_follows(start.lexer);
    proof {
        assert(start.lexer.tokens@.len() == start.lexer.tokens.len());
        if start.cur().token != TokenType::Eof {
            lemma_step(start);
            if prim {
                lemma_step(s1);
            }
        } else {
            assert(start.lexer.pos + 1 >= start.lexer.tokens@.len());
        }
    }
    let mut arguments: Vec<Parameter> = Vec::new();
    p.lexer.next_token();
    proof {
        if multi {
            assert(ahead(start.lexer, 0).token != TokenType::Eof);
            lemma_advanced(start, 1);
            assert(advanced_by(start, 1) == s1);
        }
        assert forall|n: nat| #[trigger] primitive_parameters_follow(start, n) implies n == m by {
            assert(primitive_parameters_follow(start, m));
            if n < m {
                assert(ahead(start.lexer, 3 + 3 * (n - 1)).token == TokenType::Comma);
            } else if n > m {
                assert(ahead(start.lexer, 3 + 3 * (m - 1)).token == TokenType::Comma);
            }
        }
    }
    while p.lexer.get_current_token().token == TokenType::Identifier
        invariant
            Parser::moved_on(old(p), p),
            p.defined_types == old(p).defined_types,
            start == *old(p),
            s1 == stepped_parser(start),
            prim == primitive_parameter_follows(start.lexer),
            prim ==> ({
                ||| (arguments@.len() == 0 && p.lexer == s1.lexer)
                ||| (arguments@.len() == 1 && arguments@[0].identifier.value == ahead(start.lexer, 2).literal
                    && arguments@[0]._type == Types::Basic(primitive_named(ahead(start.lexer, 1).literal@)->0)
                    && p.cur().token == TokenType::RightParenthesis)
            }),
            prim ==> s1.lexer.peek() == ahead(start.lexer, 2) && stepped_parser(s1).lexer.peek() == ahead(start.lexer, 3)
                && stepped_parser(s1).lexer.pos == start.lexer.pos + 2,
            s1.cur() == ahead(start.lexer, 1),
            ahead(start.lexer, 1).token != TokenType::Identifier ==> arguments@.len() == 0 && *p == s1,
            start.wf(),
            multi == primitive_parameters_follow(start, m),
            forall|n: nat| #[trigger] primitive_parameters_follow(start, n) ==> n == m,
            multi ==> arguments@.len() <= m
                && p.lexer == advanced_by(start, (if arguments@.len() < m { 1 + 3 * arguments@.len() } else { 3 * m }) as nat).lexer
                && forall|j: int| 0 <= j < arguments@.len() ==> (#[trigger] arguments@[j]).identifier.value == ahead(start.lexer, 2 + 3 * j).literal
                    && arguments@[j]._type == Types::Basic(primitive_named(ahead(start.lexer, 1 + 3 * j).literal@)->0),
        decreases p.lexer.tokens@.len() - p.lexer.pos,
    {
        let ghost first = prim && arguments@.len() == 0;
        let ghost before = p.lexer.pos;
        let ghost k = arguments@.len() as int;
        proof {
            if multi {
                if k == m {
                    lemma_advanced(start, 3 * m);
                    assert(false);
                }
                assert(ahead(start.lexer, 1 + 3 * k).token == TokenType::Identifier);
                lemma_advanced(start, (2 + 3 * k) as nat);
                lemma_advanced(start, (1 + 3 * k) as nat);
                assert(p.lexer.peek() == ahead(start.lexer, 2 + 3 * k));
                assert(p.cur() == ahead(start.lexer, 1 + 3 * k));
            }
        }
        let old_tok = p.lexer.get_current_token().duplicate();
        let tp = match p.parse_type(old_tok) {
            Some(t) => t,
            None => {
                return Err(SyntaxException::ExpectedToken(TokenType::RightParenthesis));
            },
        };
        p.lexer.next_token_is_and_next_token(TokenType::Identifier);
        let name = p.lexer.get_current_token().literal.clone();
        proof {
            if first {
                assert(p.cur() == ahead(start.lexer, 2));
            }
            if multi {
                assert(p.lexer == advanced_by(start, (2 + 3 * k) as nat).lexer);
                assert(p.cur() == ahead(start.lexer, 2 + 3 * k));
            }
        }
        arguments.push(Parameter { identifier: Identifier::new(name, 0, 0), _type: tp });
        p.lexer.next_token();
        proof {
            if multi {
                lemma_advanced(start, (3 + 3 * k) as nat);
                assert(p.lexer == advanced_by(start, (3 + 3 * k) as nat).lexer);
            }
        }
        if p.lexer.get_current_token().token == TokenType::Comma {
            p.lexer.next_token();
            proof {
                if multi {
                    assert(k + 1 < m);
                    lemma_advanced(start, (4 + 3 * k) as nat);
                }
            }
        }
    }
    proof {
        if multi && arguments@.len() < m {
            let k = arguments@.len() as int;
            lemma_advanced(start, (1 + 3 * k) as nat);
            assert(ahead(start.lexer, 1 + 3 * k).token == TokenType::Identifier);
            assert(false);
        }
    }
    Ok(arguments)
}

/// The arguments of a call: expressions separated by commas, up to ')' or the end.
pub fn parse_expression_arguments(p: &mut Parser) -> (r: Result<Vec<Expression>, SyntaxException>)
    requires
        old(p).wf(),
    ensures
        Parser::moved_on(old(p), final(p)),
        r is Ok ==> (final(p).cur().token == TokenType::RightParenthesis || final(p).cur().token == TokenType::Eof),
        old(p).fuel > 0 && ahead(old(p).lexer, 1).token == TokenType::RightParenthesis
            ==> (r matches Ok(v) && v@.len() == 0) && final(p).lexer == old(p).lexer.stepped(),
        old(p).fuel > 1 && single_argument_follows(*old(p)) ==> (r matches Ok(v) && v@.len() == 1
            && leaf_expression(stepped_parser(*old(p)), v@[0])) && final(p).lexer.pos == old(p).lexer.pos + 2,
    decreases old(p).fuel,
{
    let ghost start = *old(p);
    let ghost s1 = stepped_parser(start);
    let ghost single = old(p).fuel > 1 && single_argument_follows(start);
    let ghost none = old(p).fuel > 0 && ahead(old(p).lexer, 1).token == TokenType::RightParenthesis;
    proof {
        if single {
            lemma_step(start);
            lemma_step(s1);
        }
        if none {
            assert(start.lexer.tokens@.len() == start.lexer.tokens.len());
            assert(start.lexer.pos + 1 < start.lexer.tokens@.len());
            assert(s1.cur() == ahead(start.lexer, 1));
        }
    }
    if !p.spend() {
        return Err(out_of_fuel());
    }
    let mut arguments: Vec<Expression> = Vec::new();
    p.lexer.next_token();
    let ghost first = *p;
    while p.lexer.get_current_token().token != TokenType::RightParenthesis
        && p.lexer.get_current_token().token != TokenType::Eof
        invariant
            Parser::moved_on(old(p), p),
            p.fuel < old(p).fuel,
            start == *old(p),
            s1 == stepped_parser(start),
            none == (old(p).fuel > 0 && ahead(old(p).lexer, 1).token == TokenType::RightParenthesis),
            none ==> arguments@.len() == 0 && p.lexer == s1.lexer && s1.cur().token == TokenType::RightParenthesis,
            single == (old(p).fuel > 1 && single_argument_follows(start)),
            single ==> ({
                ||| (arguments@.len() == 0 && p.lexer == s1.lexer && p.fuel == start.fuel - 1)
                ||| (arguments@.len() == 1 && leaf_expression(s1, arguments@[0]) && p.lexer.pos == start.lexer.pos + 2
                    && p.cur().token == TokenType::RightParenthesis)
            }),
            single ==> stepped_parser(s1).lexer.pos == start.lexer.pos + 2
                && stepped_parser(s1).cur().token == TokenType::RightParenthesis,
        decreases p.lexer.tokens@.len() - p.lexer.pos,
    {
        let ghost at = *p;
        proof {
            if single {
                assert(single_token_operand(*p) == single_token_operand(s1));
                assert(operand_ends(*p, Precedence::Lowest) == operand_ends(s1, Precedence::Lowest));
            }
        }
        let exp_node = p.parse_expression(Precedence::Lowest)?;
        if let Node::Expression(exp) = exp_node {
            proof {
                if single {
                    assert(leaf_expression(at, exp));
                    assert(leaf_expression(s1, exp));
                }
            }
            arguments.push(exp);
        }
        p.lexer.next_token();
        if p.lexer.get_current_token().token == TokenType::Comma {
            p.lexer.next_token();
        }
    }
    Ok(arguments)
}

/// Whether the cursor is on a token other than the end that is followed by a primitive type
/// name (`int`, `bool`, `string` or `float`), a name and ')': a single parameter.
/// Whether `(` is followed by `n` parameters `<primitive type> <name>` separated by commas
/// and a `)`.
pub open spec fn primitive_parameters_follow(p: Parser, n: nat) -> bool {
    &&& n > 0
    &&& forall|j: int| 0 <= j < 3 * n ==> (#[trigger] ahead(p.lexer, j)).token != TokenType::Eof
    &&& forall|j: int| 0 <= j < n ==> (#[trigger] ahead(p.lexer, 1 + 3 * j)).token == TokenType::Identifier
        && primitive_named(ahead(p.lexer, 1 + 3 * j).literal@) is Some
        && ahead(p.lexer, 2 + 3 * j).token == TokenType::Identifier
    &&& forall|j: int| 0 <= j < n - 1 ==> (#[trigger] ahead(p.lexer, 3 + 3 * j)).token == TokenType::Comma
    &&& ahead(p.lexer, (3 * n) as int).token == TokenType::RightParenthesis
}

pub open spec fn primitive_parameter_follows(lexer: Lexer) -> bool {
    &&& lexer.cur().token != TokenType::Eof
    &&& ahead(lexer, 1).token == TokenType::Identifier
    &&& primitive_named(ahead(lexer, 1).literal@) is Some
    &&& ahead(lexer, 2).token == TokenType::Identifier
    &&& ahead(lexer, 3).token == TokenType::RightParenthesis
}

/// Whether the cursor is on '(' followed by one single-token operand that nothing continues
/// and then by ')'.
pub open spec fn single_argument_follows(p: Parser) -> bool {
    let arg = stepped_parser(p);
    &&& p.cur().token != TokenType::Eof
    &&& single_token_operand(arg)
    &&& arg.cur().token != TokenType::RightParenthesis
    &&& arg.cur().token != TokenType::Eof
    &&& operand_ends(arg, Precedence::Lowest)
    &&& ahead(p.lexer, 2).token == TokenType::RightParenthesis
}

/// A call of `ident` with the arguments that follow '('.
pub fn parse_call(p: &mut Parser, ident: Expression) -> (r: Result<Node, SyntaxException>)
    requires
        old(p).wf(),
    ensures
        Parser::moved_on(old(p), final(p)),
        r matches Ok(n) ==> n is Expression && n->Expression_0 is Call
            && *n->Expression_0->Call_0.identifier == ident,
        r is Ok ==> final(p).cur().token == TokenType::RightParenthesis,
        old(p).fuel > 1 && ahead(old(p).lexer, 1).token == TokenType::RightParenthesis
            ==> (r matches Ok(n) && n->Expression_0->Call_0.parameters@.len() == 0),
        old(p).fuel > 2 && single_argument_follows(*old(p)) ==> (r matches Ok(n)
            && n->Expression_0->Call_0.parameters@.len() == 1
            && leaf_expression(stepped_parser(*old(p)), n->Expression_0->Call_0.parameters@[0])),
    decreases old(p).fuel,
{
    let ghost start = *old(p);
    proof {
        if old(p).fuel > 1 && ahead(old(p).lexer, 1).token == TokenType::RightParenthesis {
            assert(start.lexer.tokens@.len() == start.lexer.tokens.len());
            assert(start.lexer.pos + 1 < start.lexer.tokens@.len());
        }
    }
    if !p.spend() {
        return Err(out_of_fuel());
    }
    proof {
        if old(p).fuel > 2 && single_argument_follows(start) {
            assert(single_argument_follows(*p) == single_argument_follows(start));
            assert(stepped_parser(*p).lexer == stepped_parser(start).lexer);
        }
    }
    let arguments: Vec<Expression> = parse_expression_arguments(p)?;
    proof {
        if old(p).fuel > 2 && single_argument_follows(start) {
            assert(ahead(start.lexer, 2) == start.lexer.tokens@[start.lexer.pos + 2]);
        }
    }
    p.current_token_is_result(TokenType::RightParenthesis)?;
    Ok(Node::Expression(Expression::Call(Call { identifier: Box::new(ident), parameters: arguments })))
}

/// `fn [name](<parameters>) { ... }`; public when a preceding `pub` asked for it (functions
/// inside its body are not).
pub fn parse_function(p: &mut Parser) -> (r: Result<Node, SyntaxException>)
    requires
        old(p).wf(),
    ensures
        Parser::moved_on(old(p), final(p)),
        r matches Ok(n) ==> n is Expression && n->Expression_0 is Function
            && n->Expression_0->Function_0.predefined_type is None,
        r is Ok ==> !final(p).next_public,
        r matches Ok(n) ==> n->Expression_0->Function_0.public == old(p).next_public,
        old(p).fuel > 1 && empty_function_follows(old(p).lexer) ==> (r matches Ok(n) && ({
            let f = n->Expression_0->Function_0;
            &&& f.name@ == Seq::<char>::empty()
            &&& f.parameters@.len() == 0
            &&& f.body.statements@.len() == 0
            &&& f.public == old(p).next_public
        })),
    decreases old(p).fuel,
{
    let ghost start = *old(p);
    let ghost empty = old(p).fuel > 1 && empty_function_follows(old(p).lexer);
    proof {
        if empty {
            assert(start.lexer.tokens@.len() == start.lexer.tokens.len());
            assert(start.lexer.pos + 4 < start.lexer.tokens@.len());
        }
    }
    if !p.spend() {
        return Err(out_of_fuel());
    }
    let ghost was_public = p.next_public;
    let public = p.next_public;
    p.next_public = false;
    let mut name = String::new();
    if !p.lexer.next_token_is_and_next_token(TokenType::LeftParenthesis) {
        if p.lexer.next_token_is_and_next_token(TokenType::Identifier) {
            name = p.lexer.get_current_token().literal.clone();
            p.lexer.next_token();
        } else {
            return Err(SyntaxException::ExpectedToken(TokenType::LeftParenthesis));
        }
    }
    proof {
        if empty {
            assert(p.lexer.pos == start.lexer.pos + 1);
            assert(ahead(p.lexer, 1) == ahead(start.lexer, 2));
        }
    }
    let arguments: Vec<Parameter> = parse_arguments(p)?;
    proof {
        if empty {
            assert(p.lexer.pos == start.lexer.pos + 2);
        }
    }
    p.lexer.next_token();
    proof {
        if empty {
            assert(p.cur() == ahead(start.lexer, 3));
        }
    }
    if !p.lexer.next_token_and_current_is(TokenType::LeftBrace) {
        return Err(SyntaxException::ExpectedToken(TokenType::LeftBrace));
    }
    proof {
        if empty {
            assert(p.cur() == ahead(start.lexer, 4));
        }
    }
    let body = parse_block(p)?;
    p.current_token_is_result(TokenType::RightBrace)?;
    p.next_public = false;
    Ok(Node::Expression(Expression::Function(Function {
        name,
        parameters: arguments,
        body,
        predefined_type: None,
        public,
    })))
}

/// Whether the cursor is on `fn` followed by `(`, `)`, `{` and `}`: an anonymous function
/// without parameters or statements.
pub open spec fn empty_function_follows(lexer: Lexer) -> bool {
    &&& lexer.cur().token != TokenType::Eof
    &&& ahead(lexer, 1).token == TokenType::LeftParenthesis
    &&& ahead(lexer, 2).token == TokenType::RightParenthesis
    &&& ahead(lexer, 3).token == TokenType::LeftBrace
    &&& ahead(lexer, 4).token == TokenType::RightBrace
}

/// Whether the cursor is on an operator other than '[' followed by a name that is followed by
/// neither '(' nor '=': a read of a field.
pub open spec fn field_access_follows(lexer: Lexer) -> bool {
    &&& lexer.cur().token != TokenType::LeftBracket
    &&& lexer.pos + 2 < lexer.tokens@.len()
    &&& lexer.tokens@[lexer.pos + 1].token == TokenType::Identifier
    &&& lexer.tokens@[lexer.pos + 2].token != TokenType::LeftParenthesis
    &&& lexer.tokens@[lexer.pos + 2].token != TokenType::Assign
}

/// Whether the cursor is on '[' followed by a single-token operand that nothing continues,
/// then by a token other than '..', and two tokens later by no '=': a read of one element.
pub open spec fn element_index_follows(p: Parser) -> bool {
    let index = stepped_parser(p);
    &&& p.cur().token == TokenType::LeftBracket
    &&& p.lexer.pos + 2 < p.lexer.tokens@.len()
    &&& single_token_operand(index)
    &&& operand_ends(index, Precedence::Lowest)
    &&& index.lexer.peek().token != TokenType::Range
    &&& ahead(p.lexer, 3).token != TokenType::Assign
}

/// `left[index]`, `left[begin..end]`, `left[index] = value`, `left.field`,
/// `left.field = value`, `left.method(...)`, following the token after `left`.
pub fn parse_index_expression(p: &mut Parser, left: Expression) -> (r: Result<Node, SyntaxException>)
    requires
        old(p).wf(),
    ensures
        Parser::moved_on(old(p), final(p)),
        r matches Ok(n) ==> n is Expression,
        old(p).fuel > 0 && field_access_follows(old(p).lexer) ==> r == Ok::<Node, SyntaxException>(
            Node::Expression(Expression::Index(Box::new(Index {
                left,
                index: Expression::Identifier(Identifier {
                    value: old(p).lexer.tokens@[old(p).lexer.pos + 1].literal,
                    location: Location { line: 0, colon: 0 },
                }),
            }))))
            && final(p).lexer.pos == old(p).lexer.pos + 1,
        old(p).fuel > 1 && element_index_follows(*old(p)) ==> (r matches Ok(Node::Expression(Expression::Index(b)))
            && b.left == left && leaf_expression(stepped_parser(*old(p)), b.index)),
        old(p).fuel > 2 && slice_follows(*old(p)) ==> (r matches Ok(Node::Expression(Expression::Slice(sl)))
            && *sl.left == left && leaf_expression(advanced_by(*old(p), 1), *sl.begin)
            && leaf_expression(advanced_by(*old(p), 3), *sl.end)
            && final(p).lexer.pos == old(p).lexer.pos + 4),
    decreases old(p).fuel,
{
    let ghost start = *old(p);
    let ghost element = old(p).fuel > 1 && element_index_follows(start);
    let ghost slice = old(p).fuel > 2 && slice_follows(start);
    proof {
        if slice {
            assert forall|j: int| 0 <= j < 4 implies (#[trigger] ahead(start.lexer, j)).token != TokenType::Eof by {
                assert(start.lexer.tokens@.len() == start.lexer.tokens.len());
            }
            lemma_advanced(start, 1);
            lemma_advanced(start, 2);
            lemma_advanced(start, 3);
        }
    }
    if !p.spend() {
        return Err(out_of_fuel());
    }
    let check_token = p.lexer.get_current_token().token;
    p.lexer.next_token();
    if check_token == TokenType::LeftBracket {
        // Arrays or hashmaps
        let ghost at_index = *p;
        proof {
            if element {
                assert(start.lexer.tokens@.len() == start.lexer.tokens.len());
                assert(p.lexer == stepped_parser(start).lexer);
                assert(single_token_operand(*p) == single_token_operand(stepped_parser(start)));
                assert(operand_ends(*p, Precedence::Lowest) == operand_ends(stepped_parser(start), Precedence::Lowest));
            }
        }
        proof {
            if slice {
                assert(p.lexer == advanced_by(start, 1).lexer);
                assert(single_token_operand(*p) == single_token_operand(advanced_by(start, 1)));
                assert(operand_ends(*p, Precedence::Lowest) == operand_ends(advanced_by(start, 1), Precedence::Lowest));
                assert(forall|e: Expression| leaf_expression(at_index, e) == leaf_expression(advanced_by(start, 1), e));
            }
        }
        let index_exp = p.parse_expression(Precedence::Lowest)?;
        proof {
            if element {
                assert(index_exp matches Node::Expression(e) && leaf_expression(at_index, e));
                assert(index_exp matches Node::Expression(e) && leaf_expression(stepped_parser(start), e));
                assert(p.lexer.pos == start.lexer.pos + 1);
            }
        }
        if p.lexer.get_peek_token().token == TokenType::Range {
            // A slice
            p.expected(TokenType::Range)?;
            p.lexer.next_token();
            let ghost at_end = *p;
            proof {
                if slice {
                    assert(p.lexer == advanced_by(start, 3).lexer);
                    assert(single_token_operand(*p) == single_token_operand(advanced_by(start, 3)));
                    assert(operand_ends(*p, Precedence::Lowest) == operand_ends(advanced_by(start, 3), Precedence::Lowest));
                    assert(forall|e: Expression| leaf_expression(at_end, e) == leaf_expression(advanced_by(start, 3), e));
                }
            }
            let end = p.parse_expression(Precedence::Lowest)?;
            p.expected(TokenType::RightBracket)?;
            let begin = match index_exp {
                Node::Expression(b) => b,
                Node::Statement(_) => {
                    return Err(SyntaxException::Unknown);
                },
            };
            let end = match end {
                Node::Expression(e) => e,
                Node::Statement(_) => {
                    return Err(SyntaxException::Unknown);
                },
            };
            return Ok(Node::Expression(Slice::new_node(left, begin, end)));
        }
        if let Node::Expression(index) = index_exp {
            p.lexer.next_token();
            proof {
                if element {
                    assert(p.lexer.pos == start.lexer.pos + 2);
                    assert(p.lexer.peek() == ahead(start.lexer, 3));
                }
            }
            if p.peek_token_is(TokenType::Assign) {
                p.lexer.next_token();
                p.lexer.next_token();
                let value = p.parse_expression(Precedence::Lowest)?;
                if let Node::Expression(exp) = value {
                    return Ok(Node::Expression(Expression::AssignIndex(Box::new(AssignIndex {
                        left,
                        index,
                        value: exp,
                    }))));
                } else {
                    return Ok(Node::Expression(Expression::Index(Box::new(Index { left, index }))));
                }
            }
            return Ok(Node::Expression(Expression::Index(Box::new(Index { left, index }))));
        }
    } else if p.lexer.get_current_token().token == TokenType::Identifier {
        let identifier = p.lexer.get_current_token().literal.clone();
        if p.lexer.get_peek_token().token != TokenType::LeftParenthesis {
            if p.lexer.next_token_is_and_next_token(TokenType::Assign) {
                p.lexer.next_token();
                let value = p.parse_expression(Precedence::Lowest)?;
                if let Node::Expression(exp) = value {
                    return Ok(Node::Expression(Expression::AssignIndex(Box::new(AssignIndex {
                        left,
                        index: Expression::Identifier(Identifier::new(identifier, 0, 0)),
                        value: exp,
                    }))));
                }
            }
            return Ok(Node::Expression(Expression::Index(Box::new(Index {
                left,
                index: Expression::Identifier(Identifier::new(identifier, 0, 0)),
            }))));
        }
        p.expected(TokenType::LeftParenthesis)?;
        let arguments: Vec<Expression> = parse_expression_arguments(p)?;
        return Ok(Node::Expression(Expression::Call(Call {
            identifier: Box::new(Expression::Index(Box::new(Index {
                left,
                index: Expression::Identifier(Identifier::new(identifier, 0, 0)),
            }))),
            parameters: arguments,
        })));
    } else {
        // Extension methods or classes
        let identifier = parse_identifier(p)?;
        if let Node::Expression(ident_exp) = identifier {
            p.lexer.next_token();
            let exp = parse_call(p, ident_exp)?;
            if let Node::Expression(val) = exp {
                return Ok(Node::Expression(Expression::Index(Box::new(Index { left, index: val }))));
            }
        }
    }
    Err(SyntaxException::Unknown)
}

impl Slice {
    /// A slice expression `left[begin..end]`.
    pub fn new_node(left: Expression, begin: Expression, end: Expression) -> (r: Expression)
        ensures
            r == Expression::Slice(Slice { left: Box::new(left), begin: Box::new(begin), end: Box::new(end) }),
    {
        Expression::Slice(Slice { left: Box::new(left), begin: Box::new(begin), end: Box::new(end) })
    }
}

/// A `for` loop: `for <condition> { ... }`, `for var i = a to b { ... }` or
/// `for var x in <array> { ... }`, with or without parentheses.
#[verifier::rlimit(80)]
#[verifier::spinoff_prover]
pub fn parse_loop(p: &mut Parser) -> (r: Result<Node, SyntaxException>)
    requires
        old(p).wf(),
    ensures
        Parser::moved_on(old(p), final(p)),
        r matches Ok(n) ==> n is Expression && (n->Expression_0 is Loop || n->Expression_0 is LoopIterator
            || n->Expression_0 is LoopArrayIterator),
        r matches Ok(n) ==> ({
            let k: int = if ahead(old(p).lexer, 1).token == TokenType::LeftParenthesis { 2 } else { 1 };
            &&& (n->Expression_0 is Loop <==> ahead(old(p).lexer, k).token != TokenType::VariableDeclaration)
            &&& (n->Expression_0 is LoopIterator <==> ahead(old(p).lexer, k).token == TokenType::VariableDeclaration
                && ahead(old(p).lexer, k + 2).token == TokenType::Assign)
        }),
        old(p).fuel > 2 && operand_after(*old(p)) && ahead(old(p).lexer, 1).token != TokenType::LeftParenthesis
            && ahead(old(p).lexer, 1).token != TokenType::VariableDeclaration
            && ahead(old(p).lexer, 2).token == TokenType::LeftBrace && ahead(old(p).lexer, 3).token == TokenType::RightBrace
            ==> (r matches Ok(n) && n->Expression_0 is Loop
                && leaf_expression(stepped_parser(*old(p)), *n->Expression_0->Loop_0.condition)
                && n->Expression_0->Loop_0.body.statements@.len() == 0),
        old(p).fuel > 6 && operand_after(*old(p)) && ahead(old(p).lexer, 1).token != TokenType::LeftParenthesis
            && ahead(old(p).lexer, 1).token != TokenType::VariableDeclaration
            && ahead(old(p).lexer, 2).token == TokenType::LeftBrace && single_operand_block(advanced_by(*old(p), 3))
            ==> (r matches Ok(n) && n->Expression_0 is Loop
                && leaf_expression(stepped_parser(*old(p)), *n->Expression_0->Loop_0.condition)
                && n->Expression_0->Loop_0.body.statements@.len() == 1
                && n->Expression_0->Loop_0.body.statements@[0] is Expression
                && leaf_expression(advanced_by(*old(p), 3),
                    *n->Expression_0->Loop_0.body.statements@[0]->Expression_0.expression)),
        old(p).fuel > 2 && old(p).cur().token != TokenType::Eof && ahead(old(p).lexer, 1).token == TokenType::LeftParenthesis
            && operand_after(stepped_parser(*old(p))) && ahead(old(p).lexer, 2).token != TokenType::VariableDeclaration
            && ahead(old(p).lexer, 2).token != TokenType::Eof && ahead(old(p).lexer, 3).token != TokenType::RightParenthesis
            ==> (r matches Err(SyntaxException::CustomMessage(m, Some(_))) && m@ == "expected: RightParenthesis"@),
        old(p).fuel > 2 && operand_after(*old(p)) && ahead(old(p).lexer, 1).token != TokenType::LeftParenthesis
            && ahead(old(p).lexer, 1).token != TokenType::VariableDeclaration
            && ahead(old(p).lexer, 2).token == TokenType::RightParenthesis
            ==> (r matches Err(SyntaxException::CustomMessage(m, Some(_))) && m@ == "expected: NoParenthesis"@),
    decreases old(p).fuel,
{
    let ghost start = *old(p);
    let ghost s1 = stepped_parser(start);
    let ghost pe = old(p).fuel > 2 && old(p).cur().token != TokenType::Eof && ahead(start.lexer, 1).token == TokenType::LeftParenthesis
        && operand_after(s1) && ahead(start.lexer, 2).token != TokenType::VariableDeclaration
        && ahead(start.lexer, 2).token != TokenType::Eof && ahead(start.lexer, 3).token != TokenType::RightParenthesis;
    let ghost ne = old(p).fuel > 2 && operand_after(start) && ahead(start.lexer, 1).token != TokenType::LeftParenthesis
        && ahead(start.lexer, 1).token != TokenType::VariableDeclaration
        && ahead(start.lexer, 2).token == TokenType::RightParenthesis;
    proof {
        if pe {
            lemma_step(start);
            assert(ahead(s1.lexer, 1) == ahead(start.lexer, 2));
            assert forall|j: int| 0 <= j < 3 implies (#[trigger] ahead(start.lexer, j)).token != TokenType::Eof by {
                assert(start.lexer.tokens@.len() == start.lexer.tokens.len());
                if j == 2 {
                    lemma_step(s1);
                }
            }
            lemma_advanced(start, 1);
            lemma_advanced(start, 2);
            assert(advanced_by(start, 1) == s1);
        }
        if ne {
            assert forall|j: int| 0 <= j < 2 implies (#[trigger] ahead(start.lexer, j)).token != TokenType::Eof by {
                assert(start.lexer.tokens@.len() == start.lexer.tokens.len());
                if j == 1 {
                    lemma_step(start);
                }
            }
            lemma_advanced(start, 1);
            assert(advanced_by(start, 1) == s1);
        }
    }
    let ghost one = old(p).fuel > 6 && operand_after(start) && ahead(start.lexer, 1).token != TokenType::LeftParenthesis
        && ahead(start.lexer, 1).token != TokenType::VariableDeclaration
        && ahead(start.lexer, 2).token == TokenType::LeftBrace && single_operand_block(advanced_by(start, 3));
    proof {
        if one {
            assert forall|j: int| 0 <= j < 3 implies (#[trigger] ahead(start.lexer, j)).token != TokenType::Eof by {
                assert(start.lexer.tokens@.len() == start.lexer.tokens.len());
            }
            lemma_advanced(start, 1);
            lemma_advanced(start, 2);
            lemma_advanced(start, 3);
            assert(advanced_by(start, 1) == s1);
        }
    }
    let ghost simple = old(p).fuel > 2 && operand_after(start) && ahead(start.lexer, 1).token != TokenType::LeftParenthesis
        && ahead(start.lexer, 1).token != TokenType::VariableDeclaration
        && ahead(start.lexer, 2).token == TokenType::LeftBrace && ahead(start.lexer, 3).token == TokenType::RightBrace;
    proof {
        if simple {
            lemma_step(start);
            lemma_step(s1);
            lemma_step(stepped_parser(s1));
        }
    }
    if !p.spend() {
        return Err(out_of_fuel());
    }
    p.lexer.next_token();
    let ghost at = *p;
    proof {
        if simple || one {
            assert(single_token_operand(*p) == single_token_operand(s1));
            assert(operand_ends(*p, Precedence::Lowest) == operand_ends(s1, Precedence::Lowest));
        }
    }
    let uses_parenthesis = p.current_token_is(TokenType::LeftParenthesis);
    if uses_parenthesis {
        p.lexer.next_token();
    }
    proof {
        if pe {
            assert(p.lexer == advanced_by(start, 2).lexer);
            assert(single_token_operand(*p) == single_token_operand(stepped_parser(s1)));
            assert(operand_ends(*p, Precedence::Lowest) == operand_ends(stepped_parser(s1), Precedence::Lowest));
        }
        if ne {
            assert(p.lexer == s1.lexer);
            assert(single_token_operand(*p) == single_token_operand(s1));
            assert(operand_ends(*p, Precedence::Lowest) == operand_ends(s1, Precedence::Lowest));
        }
    }
    let ghost at_condition = *p;
    if p.current_token_is(TokenType::VariableDeclaration) {
        p.lexer.next_token();
        let identifier = parse_identifier(p)?;
        return if let Node::Expression(Expression::Identifier(ident)) = identifier {
            if !p.lexer.next_token_is_and_next_token(TokenType::Assign) {
                parse_loop_array_iterator(p, ident, uses_parenthesis)
            } else {
                parse_loop_iterator(p, ident, uses_parenthesis)
            }
        } else {
            Err(SyntaxException::ExpectedToken(TokenType::Identifier))
        };
    }
    // Regular loop: for i < 3 { STATEMENTS }
    let condition_node = p.parse_expression(Precedence::Lowest)?;
    proof {
        if simple || one {
            assert(condition_node matches Node::Expression(e) && leaf_expression(at, e));
            assert(condition_node matches Node::Expression(e) && leaf_expression(s1, e));
        }
    }
    p.lexer.next_token();
    proof {
        if one {
            assert(p.lexer == advanced_by(start, 2).lexer);
        }
        if pe {
            lemma_step(at_condition);
            assert(p.cur() == ahead(start.lexer, 3));
        }
        if ne {
            lemma_step(at_condition);
            assert(p.cur() == ahead(start.lexer, 2));
        }
    }
    if p.current_token_is(TokenType::RightParenthesis) != uses_parenthesis {
        if uses_parenthesis {
            let message = owned("Syntax  -> for (<condition>) { <code> }\nExample -> for (i < 3) { println(i) }\n\nAn if expression can be with or without parenthesis");
            return Err(SyntaxException::CustomMessage(owned("expected: RightParenthesis"), Some(message)));
        } else {
            let message = owned("Syntax  -> for <condition> { <code> }\nExample -> for i < 3 { println(i) }\n\nAn if expression can be with or without parenthesis");
            return Err(SyntaxException::CustomMessage(owned("expected: NoParenthesis"), Some(message)));
        }
    } else if uses_parenthesis {
        p.lexer.next_token();
    }
    if !p.current_token_is(TokenType::LeftBrace) {
        let message = owned("Syntax  -> for (<condition>) { <code> }\nExample -> for (i < 3) { println(i) }");
        return Err(SyntaxException::CustomMessage(owned("expected: LeftBrace"), Some(message)));
    }
    p.lexer.next_token();
    let ghost at_body = *p;
    proof {
        if one {
            let b = advanced_by(start, 3);
            assert(p.lexer == b.lexer);
            assert(single_operand_block(*p) == single_operand_block(b));
            assert(forall|e: Expression| leaf_expression(at_body, e) == leaf_expression(b, e));
        }
    }
    let body = parse_block(p)?;
    if !p.current_token_is(TokenType::RightBrace) {
        let message = owned("Syntax  -> for (<condition>) { <code> }\nExample -> for (i < 3) { println(i) }");
        return Err(SyntaxException::CustomMessage(owned("expected: RightBrace"), Some(message)));
    }
    if let Node::Expression(exp) = condition_node {
        return Ok(Node::Expression(Expression::Loop(Loop { condition: Box::new(exp), body })));
    }
    Err(SyntaxException::Unknown)
}

/// `for var x in <array> { ... }`, after the identifier.
pub fn parse_loop_array_iterator(
    p: &mut Parser,
    identifier: Identifier,
    uses_parenthesis: bool,
) -> (r: Result<Node, SyntaxException>)
    requires
        old(p).wf(),
    ensures
        Parser::moved_on(old(p), final(p)),
        r matches Ok(n) ==> n is Expression && n->Expression_0 is LoopArrayIterator
            && n->Expression_0->LoopArrayIterator_0.identifier == identifier,
        old(p).fuel > 0 && ahead(old(p).lexer, 1).token != TokenType::In
            ==> r == Err::<Node, SyntaxException>(SyntaxException::ExpectedToken(TokenType::From)),
        old(p).fuel > 2 && !uses_parenthesis && old(p).cur().token != TokenType::Eof
            && ahead(old(p).lexer, 1).token == TokenType::In && operand_after(stepped_parser(*old(p)))
            && ahead(old(p).lexer, 3).token == TokenType::LeftBrace && ahead(old(p).lexer, 4).token == TokenType::RightBrace
            ==> (r matches Ok(n)
                && leaf_expression(stepped_parser(stepped_parser(*old(p))), *n->Expression_0->LoopArrayIterator_0.array)
                && n->Expression_0->LoopArrayIterator_0.body.statements@.len() == 0),
    decreases old(p).fuel,
{
    let ghost start = *old(p);
    let ghost s2 = stepped_parser(stepped_parser(start));
    let ghost simple = old(p).fuel > 2 && !uses_parenthesis && old(p).cur().token != TokenType::Eof
        && ahead(old(p).lexer, 1).token == TokenType::In && operand_after(stepped_parser(start))
        && ahead(old(p).lexer, 3).token == TokenType::LeftBrace && ahead(old(p).lexer, 4).token == TokenType::RightBrace;
    proof {
        assert(start.lexer.tokens@.len() == start.lexer.tokens.len());
        if simple {
            lemma_step(start);
            lemma_step(stepped_parser(start));
            lemma_step(s2);
            lemma_step(stepped_parser(s2));
        }
    }
    if !p.spend() {
        return Err(out_of_fuel());
    }
    p.lexer.next_token();
    if p.current_token_is(TokenType::In) {
        p.lexer.next_token();
        let ghost at = *p;
        proof {
            if simple {
                assert(p.lexer == s2.lexer);
                assert(single_token_operand(*p) == single_token_operand(s2));
                assert(operand_ends(*p, Precedence::Lowest) == operand_ends(s2, Precedence::Lowest));
            }
        }
        let exp = p.parse_expression(Precedence::Lowest)?;
        proof {
            if simple {
                assert(exp matches Node::Expression(e) && leaf_expression(at, e));
                assert(exp matches Node::Expression(e) && leaf_expression(s2, e));
            }
        }
        if let Node::Expression(expression) = exp {
            p.lexer.next_token();
            if uses_parenthesis {
                p.lexer.next_token();
            }
            p.current_token_is_result(TokenType::LeftBrace)?;
            p.lexer.next_token();
            let body = parse_block(p)?;
            return Ok(Node::Expression(Expression::LoopArrayIterator(LoopArrayIterator {
                identifier,
                body,
                array: Box::new(expression),
            })));
        }
    } else {
        return Err(SyntaxException::ExpectedToken(TokenType::From));
    }
    Err(SyntaxException::Unknown)
}

/// The token `k` places after the cursor (the end-of-file token past the end).
pub open spec fn ahead(lexer: Lexer, k: int) -> crate::lexer::Token {
    if lexer.pos + k < lexer.tokens@.len() { lexer.tokens@[lexer.pos + k] } else { lexer.tokens@.last() }
}

/// Whether the cursor (on '=') is followed by `<from> to <till>` with two integers that fit
/// in 32 bits, then by ')' and '{' (with parentheses) or by '{'.
pub open spec fn counting_header_follows(lexer: Lexer, uses_parenthesis: bool) -> bool {
    &&& lexer.cur().token != TokenType::Eof
    &&& ahead(lexer, 1).token == TokenType::Integer
    &&& digits_value(ahead(lexer, 1).literal@) <= u32::MAX
    &&& ahead(lexer, 2).token == TokenType::To
    &&& ahead(lexer, 3).token == TokenType::Integer
    &&& digits_value(ahead(lexer, 3).literal@) <= u32::MAX
    &&& uses_parenthesis ==> ahead(lexer, 4).token == TokenType::RightParenthesis
        && ahead(lexer, 5).token == TokenType::LeftBrace
    &&& !uses_parenthesis ==> ahead(lexer, 4).token == TokenType::LeftBrace
}

/// Whether the cursor is on '[' followed by `<begin> .. <end> ]` with single-token operands
/// that nothing continues: a slice.
pub open spec fn slice_follows(p: Parser) -> bool {
    &&& p.cur().token == TokenType::LeftBracket
    &&& ahead(p.lexer, 1).token != TokenType::Eof
    &&& single_token_operand(advanced_by(p, 1))
    &&& operand_ends(advanced_by(p, 1), Precedence::Lowest)
    &&& ahead(p.lexer, 2).token == TokenType::Range
    &&& ahead(p.lexer, 3).token != TokenType::Eof
    &&& single_token_operand(advanced_by(p, 3))
    &&& operand_ends(advanced_by(p, 3), Precedence::Lowest)
    &&& ahead(p.lexer, 4).token == TokenType::RightBracket
}

/// The parser after its cursor moves forward `k` times.
pub open spec fn advanced_by(p: Parser, k: nat) -> Parser
    decreases k,
{
    if k == 0 { p } else { stepped_parser(advanced_by(p, (k - 1) as nat)) }
}

/// Moving forward `k` times over tokens other than the end puts the cursor `k` tokens on,
/// keeps the parser well formed, and changes nothing but the cursor.
pub proof fn lemma_advanced(p: Parser, k: nat)
    requires
        p.wf(),
        forall|j: int| 0 <= j < k ==> (#[trigger] ahead(p.lexer, j)).token != TokenType::Eof,
    ensures
        advanced_by(p, k).wf(),
        advanced_by(p, k).lexer.pos == p.lexer.pos + k,
        forall|j: int| j >= 0 ==> #[trigger] ahead(advanced_by(p, k).lexer, j) == ahead(p.lexer, k + j),
        advanced_by(p, k).cur() == ahead(p.lexer, k as int),
        advanced_by(p, k) == (Parser { lexer: advanced_by(p, k).lexer, ..p }),
        Lexer::same_stream(&p.lexer, &advanced_by(p, k).lexer),
    decreases k,
{
    assert(p.lexer.tokens@.len() == p.lexer.tokens.len());
    if k > 0 {
        let k1 = (k - 1) as nat;
        assert forall|j: int| 0 <= j < k1 implies (#[trigger] ahead(p.lexer, j)).token != TokenType::Eof by {
            assert(ahead(p.lexer, j).token != TokenType::Eof);
        }
        lemma_advanced(p, k1);
        let q = advanced_by(p, k1);
        assert(ahead(q.lexer, 0) == ahead(p.lexer, k1 as int));
        assert(ahead(p.lexer, k1 as int).token != TokenType::Eof);
        assert(q.cur() == ahead(q.lexer, 0));
        lemma_step(q);
        assert forall|j: int| j >= 0 implies #[trigger] ahead(advanced_by(p, k).lexer, j) == ahead(p.lexer, k + j) by {
            assert(ahead(stepped_parser(q).lexer, j) == ahead(q.lexer, j + 1));
            assert(ahead(q.lexer, j + 1) == ahead(p.lexer, k1 + j + 1));
        }
        assert(ahead(advanced_by(p, k).lexer, 0) == ahead(p.lexer, k as int));
    } else {
        assert(p.lexer.pos < p.lexer.tokens@.len());
    }
}

/// Stepping off a token other than the end moves the cursor by one, onto the token after it,
/// and keeps the parser well formed; what lies ahead moves one place closer.
pub proof fn lemma_step(p: Parser)
    requires
        p.wf(),
        p.cur().token != TokenType::Eof,
    ensures
        stepped_parser(p).wf(),
        stepped_parser(p).lexer.pos == p.lexer.pos + 1,
        stepped_parser(p).cur() == p.lexer.peek(),
        stepped_parser(p).lexer.peek() == ahead(p.lexer, 2),
        forall|k: int| k >= 0 ==> #[trigger] ahead(stepped_parser(p).lexer, k) == ahead(p.lexer, k + 1),
        Lexer::same_stream(&p.lexer, &stepped_parser(p).lexer),
{
    assert(p.lexer.tokens@.len() == p.lexer.tokens.len());
    assert(p.lexer.pos + 1 < p.lexer.tokens@.len());
}

/// The value of an unsigned 32-bit integer literal.
fn parse_u32_literal(s: &str) -> (r: Option<u32>)
    ensures
        r matches Some(v) ==> v as int == digits_value(s@) && all_digits(s@) && s@.len() > 0,
        s@.len() > 0 && all_digits(s@) && digits_value(s@) <= u32::MAX ==> r is Some,
{
    let chars = str_to_chars(s);
    match parse_i64_digits(chars.as_slice()) {
        Some(v) => if v <= 4294967295 { Some(v as u32) } else { None },
        None => None,
    }
}

/// `for var i = <from> to <till> { ... }`, after the identifier and '='.
#[verifier::rlimit(60)]
#[verifier::spinoff_prover]
pub fn parse_loop_iterator(
    p: &mut Parser,
    identifier: Identifier,
    uses_parenthesis: bool,
) -> (r: Result<Node, SyntaxException>)
    requires
        old(p).wf(),
    ensures
        Parser::moved_on(old(p), final(p)),
        r matches Ok(n) ==> n is Expression && n->Expression_0 is LoopIterator
            && n->Expression_0->LoopIterator_0.identifier == identifier
            && ahead(old(p).lexer, 1).token == TokenType::Integer
            && ahead(old(p).lexer, 2).token == TokenType::To
            && ahead(old(p).lexer, 3).token == TokenType::Integer
            && n->Expression_0->LoopIterator_0.from as int == digits_value(ahead(old(p).lexer, 1).literal@)
            && n->Expression_0->LoopIterator_0.till as int == digits_value(ahead(old(p).lexer, 3).literal@),
        old(p).fuel > 0 && ahead(old(p).lexer, 1).token != TokenType::Integer
            ==> r == Err::<Node, SyntaxException>(SyntaxException::ExpectedToken(TokenType::Integer)),
        old(p).fuel > 0 && ahead(old(p).lexer, 1).token == TokenType::Integer
            && digits_value(ahead(old(p).lexer, 1).literal@) <= u32::MAX && ahead(old(p).lexer, 2).token != TokenType::To
            ==> r == Err::<Node, SyntaxException>(SyntaxException::ExpectedToken(TokenType::To)),
        old(p).fuel > 5 && counting_header_follows(old(p).lexer, uses_parenthesis) ==> ({
            let b = advanced_by(*old(p), if uses_parenthesis { 6nat } else { 5nat });
            &&& b.cur().token == TokenType::RightBrace ==> (r matches Ok(n)
                && n->Expression_0->LoopIterator_0.body.statements@.len() == 0)
            &&& single_operand_block(b) ==> (r matches Ok(n)
                && n->Expression_0->LoopIterator_0.body.statements@.len() == 1
                && n->Expression_0->LoopIterator_0.body.statements@[0] is Expression
                && leaf_expression(b, *n->Expression_0->LoopIterator_0.body.statements@[0]->Expression_0.expression))
        }),
    decreases old(p).fuel,
{
    let ghost start = *old(p);
    let ghost k: nat = if uses_parenthesis { 6nat } else { 5nat };
    let ghost header = old(p).fuel > 5 && counting_header_follows(old(p).lexer, uses_parenthesis);
    proof {
        if header {
            assert forall|j: int| 0 <= j < k implies (#[trigger] ahead(start.lexer, j)).token != TokenType::Eof by {
                assert(start.lexer.tokens@.len() == start.lexer.tokens.len());
            }
            lemma_advanced(start, k);
            lemma_advanced(start, 1);
            lemma_advanced(start, 2);
            lemma_advanced(start, 3);
            lemma_advanced(start, 4);
            if uses_parenthesis {
                lemma_advanced(start, 5);
            }
        }
    }
    if !p.spend() {
        return Err(out_of_fuel());
    }
    let message = owned("Syntax  -> for (<condition>) { <code> }\nExample -> for (i < 3) { println(i) }");
    p.lexer.next_token();
    proof {
        if header {
            assert(p.lexer == advanced_by(start, 1).lexer);
        }
    }
    if !p.current_token_is(TokenType::Integer) {
        p.throw_exception(create_token(TokenType::Integer, owned("Integer")), Some(message));
        return Err(SyntaxException::ExpectedToken(TokenType::Integer));
    }
    let from = match parse_u32_literal(p.lexer.get_current_token().literal.as_str()) {
        Some(v) => v,
        None => {
            return Err(SyntaxException::ExpectedToken(TokenType::Integer));
        },
    };
    p.lexer.next_token();
    proof {
        if header {
            assert(p.lexer == advanced_by(start, 2).lexer);
        }
    }
    if !p.current_token_is(TokenType::To) {
        p.throw_exception(create_token(TokenType::To, owned("to")), Some(message));
        return Err(SyntaxException::ExpectedToken(TokenType::To));
    }
    p.lexer.next_token();
    proof {
        if header {
            assert(p.lexer == advanced_by(start, 3).lexer);
        }
    }
    if !p.current_token_is(TokenType::Integer) {
        p.throw_exception(create_token(TokenType::Integer, owned("Integer")), Some(message));
        return Err(SyntaxException::ExpectedToken(TokenType::Integer));
    }
    let till = match parse_u32_literal(p.lexer.get_current_token().literal.as_str()) {
        Some(v) => v,
        None => {
            return Err(SyntaxException::ExpectedToken(TokenType::Integer));
        },
    };
    p.lexer.next_token();
    proof {
        if header {
            assert(p.lexer == advanced_by(start, 4).lexer);
        }
    }
    if p.current_token_is(TokenType::RightParenthesis) != uses_parenthesis {
        if uses_parenthesis {
            let m = owned("Syntax  -> for (<condition>) { <code> }\nExample -> for (i < 3) { println(i) }\n\nAn if expression can be with or without parenthesis");
            p.throw_exception(create_token(TokenType::RightParenthesis, owned(")")), Some(m));
            return Err(SyntaxException::ExpectedToken(TokenType::RightParenthesis));
        } else {
            let m = owned("Syntax  -> for <condition> { <code> }\nExample -> for i < 3 { println(i) }\n\nAn if expression can be with or without parenthesis");
            p.throw_exception(create_token(TokenType::LeftBrace, owned(")")), Some(m));
            return Err(SyntaxException::ExpectedToken(TokenType::LeftBrace));
        }
    } else if uses_parenthesis {
        p.lexer.next_token();
        proof {
            if header {
                assert(p.lexer == advanced_by(start, 5).lexer);
            }
        }
    }
    if !p.current_token_is(TokenType::LeftBrace) {
        let m = owned("Syntax  -> for (<condition>) { <code> }\nExample -> for (i < 3) { println(i) }");
        p.throw_exception(create_token(TokenType::LeftBrace, owned("{")), Some(m));
        return Err(SyntaxException::ExpectedToken(TokenType::LeftBrace));
    }
    p.lexer.next_token();
    let ghost at = *p;
    proof {
        if header {
            let b = advanced_by(start, k);
            assert(p.lexer == b.lexer);
            assert(single_operand_block(*p) == single_operand_block(b));
            assert(forall|e: Expression| leaf_expression(at, e) == leaf_expression(b, e));
        }
    }
    let body = parse_block(p)?;
    Ok(Node::Expression(Expression::LoopIterator(LoopIterator { identifier, body, from, till })))
}

/// `left <operator> right`, where `right` binds at the operator's precedence.
pub fn parse_suffix_expression(p: &mut Parser, left: Expression) -> (r: Result<Node, SyntaxException>)
    requires
        old(p).wf(),
    ensures
        Parser::moved_on(old(p), final(p)),
        r matches Ok(n) ==> n is Expression && n->Expression_0 is Suffix
            && n->Expression_0->Suffix_0.left == left
            && n->Expression_0->Suffix_0.operator == old(p).cur().literal,
        old(p).fuel > 1 && single_token_operand(stepped_parser(*old(p)))
            && operand_ends(stepped_parser(*old(p)), spec_precedence(old(p).cur().token))
            ==> (r matches Ok(n) && n is Expression && n->Expression_0 is Suffix
                && leaf_expression(stepped_parser(*old(p)), n->Expression_0->Suffix_0.right))
                && final(p).lexer == old(p).lexer.stepped(),
    decreases old(p).fuel,
{
    if !p.spend() {
        return Err(out_of_fuel());
    }
    let operator = p.lexer.get_current_token().literal.clone();
    let pre = p.current_precedence();
    p.lexer.next_token();
    let exp = p.parse_expression(pre)?;
    if let Node::Expression(val) = exp {
        return Ok(Node::Expression(Expression::Suffix(Box::new(Suffix { left, operator, right: val }))));
    }
    Err(SyntaxException::Unknown)
}

/// `( <expression> )`.
pub fn parse_grouped_expression(p: &mut Parser) -> (r: Result<Node, SyntaxException>)
    requires
        old(p).wf(),
    ensures
        Parser::moved_on(old(p), final(p)),
        r is Ok ==> final(p).cur().token == TokenType::RightParenthesis,
        old(p).fuel > 1 && operand_after(*old(p)) && ahead(old(p).lexer, 2).token == TokenType::RightParenthesis
            ==> (r matches Ok(n) && n is Expression && leaf_expression(stepped_parser(*old(p)), n->Expression_0)),
    decreases old(p).fuel,
{
    let ghost start = *old(p);
    let ghost s1 = stepped_parser(start);
    let ghost simple = old(p).fuel > 1 && operand_after(start) && ahead(start.lexer, 2).token == TokenType::RightParenthesis;
    proof {
        if simple {
            lemma_step(start);
        }
    }
    if !p.spend() {
        return Err(out_of_fuel());
    }
    p.lexer.next_token();
    let ghost at = *p;
    proof {
        if simple {
            assert(single_token_operand(*p) == single_token_operand(s1));
            assert(operand_ends(*p, Precedence::Lowest) == operand_ends(s1, Precedence::Lowest));
        }
    }
    let exp = p.parse_expression(Precedence::Lowest)?;
    proof {
        if simple {
            assert(exp matches Node::Expression(e) && leaf_expression(at, e));
            assert(exp matches Node::Expression(e) && leaf_expression(s1, e));
            lemma_step(s1);
        }
    }
    p.lexer.next_token();
    p.current_token_is_result(TokenType::RightParenthesis)?;
    Ok(exp)
}

/// Whether the token after the cursor is a single-token operand that nothing continues.
pub open spec fn operand_after(p: Parser) -> bool {
    &&& p.cur().token != TokenType::Eof
    &&& single_token_operand(stepped_parser(p))
    &&& operand_ends(stepped_parser(p), Precedence::Lowest)
}

/// The expression after an opening parenthesis, for `if` and `for` conditions; the closing
/// parenthesis is left to the caller.
pub fn parse_grouped_expression_without_param(p: &mut Parser) -> (r: Result<Node, SyntaxException>)
    requires
        old(p).wf(),
    ensures
        Parser::moved_on(old(p), final(p)),
        old(p).fuel > 1 && operand_after(*old(p)) ==> (r matches Ok(n) && n is Expression
            && leaf_expression(stepped_parser(*old(p)), n->Expression_0)) && final(p).lexer == old(p).lexer.stepped(),
    decreases old(p).fuel,
{
    let ghost start = *old(p);
    let ghost s1 = stepped_parser(start);
    let ghost simple = old(p).fuel > 1 && operand_after(start);
    if !p.spend() {
        return Err(out_of_fuel());
    }
    p.lexer.next_token();
    let ghost at = *p;
    proof {
        if simple {
            assert(single_token_operand(*p) == single_token_operand(s1));
            assert(operand_ends(*p, Precedence::Lowest) == operand_ends(s1, Precedence::Lowest));
        }
    }
    let r = p.parse_expression(Precedence::Lowest);
    proof {
        if simple {
            assert(r matches Ok(Node::Expression(e)) && leaf_expression(at, e));
            assert(r matches Ok(Node::Expression(e)) && leaf_expression(s1, e));
        }
    }
    r
}

} // verus!
