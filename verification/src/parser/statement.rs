//! Statement nodes of the syntax tree.
use vstd::prelude::*;
use crate::parser::expression::{Identifier, Parameter};
use crate::types::Types;
use crate::exception::SyntaxException;
use crate::lexer::{Token, TokenType};
use crate::parser::{Parser, out_of_fuel, stepped_parser, single_token_operand, operand_ends, leaf_expression,
    binary_follows, single_operand_block, primitive_named, array_marker_follows};
use crate::parser::program::Node;
use crate::parser::expression::{Precedence, Null, parse_identifier, parse_arguments, ahead, lemma_step,
    same_expr, same_block, same_stmt, same_stmts, same_item, same_fields, same_params};
use crate::text::{owned, concat, contains_string};

verus! {

broadcast use vstd::std_specs::vec::group_vec_axioms;

/// An expression used as a statement.
pub struct Expression {
    pub expression: Box<crate::parser::expression::Expression>,
}

/// `<identifier> := <expression>`, optionally with a declared type.
pub struct VariableDeclaration {
    pub ident: Identifier,
    pub value: Box<crate::parser::expression::Expression>,
    pub data_type: Types,
    /// Line, column
    pub location: (i32, i32),
}

/// `const <identifier> := <expression>`, optionally with a declared type.
pub struct ConstantDeclaration {
    pub ident: Identifier,
    pub value: Box<crate::parser::expression::Expression>,
    pub data_type: Types,
}

pub struct Block {
    pub statements: Vec<Statement>,
}

/// `<identifier> = <expression>`
pub struct VariableAssign {
    pub ident: Identifier,
    pub value: Box<crate::parser::expression::Expression>,
}

pub struct ReturnStatement {
    pub expression: Box<crate::parser::expression::Expression>,
}

/// `import "<file>" as <identifier>`
pub struct Import {
    pub file: String,
    pub identifier: String,
}

pub struct Export {
    pub names: Vec<String>,
}

pub struct BreakStatement {
    pub expression: Box<crate::parser::expression::Expression>,
}

pub struct Method {
    pub name: String,
    pub return_type: Types,
    pub arguments: Vec<Parameter>,
    pub body: Block,
}

pub enum ClassItem {
    Property(Expression),
    Method(Method),
    Lazy(Types),
}

pub struct ClassField {
    pub name: String,
    pub index: u32,
    pub item: ClassItem,
}

pub struct Class {
    pub name: String,
    pub values: Vec<ClassField>,
    pub inherits: String,
    pub public: bool,
}

/// `extends <type> { ... }`: methods added to a primitive type.
pub struct ExtendStatement {
    pub identifier: Identifier,
    pub items: Vec<ClassField>,
}

pub enum Statement {
    VariableDeclaration(VariableDeclaration),
    ConstantDeclaration(ConstantDeclaration),
    Expression(Box<Expression>),
    Block(Block),
    VariableAssign(VariableAssign),
    Return(ReturnStatement),
    Import(Import),
    Export(Export),
    Break(BreakStatement),
    Class(Class),
    Extend(ExtendStatement),
}

/// A copy of a list of parameters.
pub fn duplicate_params(v: &Vec<Parameter>) -> (r: Vec<Parameter>)
    ensures
        r@.len() == v@.len(),
        same_params(v@, r@),
        forall|i: int| 0 <= i < v@.len() ==> (#[trigger] r@[i]).identifier == v@[i].identifier
            && r@[i]._type@ == v@[i]._type@,
    decreases v,
{
    let mut out: Vec<Parameter> = Vec::new();
    let mut i: usize = 0;
    while i < v.len()
        invariant
            i <= v.len(),
            out@.len() == i,
            forall|j: int| 0 <= j < i ==> (#[trigger] out@[j]).identifier == v@[j].identifier
                && out@[j]._type@ == v@[j]._type@,
        decreases v.len() - i,
    {
        out.push(v[i].duplicate());
        i = i + 1;
    }
    out
}

/// A copy of a list of strings.
pub fn duplicate_strings(v: &Vec<String>) -> (r: Vec<String>)
    ensures
        r@ == v@,
{
    let mut out: Vec<String> = Vec::new();
    let mut i: usize = 0;
    while i < v.len()
        invariant
            i <= v.len(),
            out@ == v@.take(i as int),
        decreases v.len() - i,
    {
        out.push(v[i].clone());
        assert(out@ =~= v@.take(i + 1));
        i = i + 1;
    }
    assert(v@.take(v.len() as int) =~= v@);
    out
}

fn duplicate_statements(v: &Vec<Statement>) -> (r: Vec<Statement>)
    ensures
        r@.len() == v@.len(),
        same_stmts(v@, r@),
    decreases v,
{
    let mut out: Vec<Statement> = Vec::new();
    let mut i: usize = 0;
    while i < v.len()
        invariant
            i <= v.len(),
            out@.len() == i,
            forall|j: int| #![trigger v@[j]] 0 <= j < i ==> same_stmt(v@[j], out@[j]),
        decreases v.len() - i,
    {
        out.push(v[i].duplicate());
        proof { assert(same_stmt(v@[i as int], out@[i as int])); }
        i = i + 1;
    }
    proof { assert(same_stmts(v@, out@)); }
    out
}

/// A copy of a list of class fields.
pub fn duplicate_fields(v: &Vec<ClassField>) -> (r: Vec<ClassField>)
    ensures
        r@.len() == v@.len(),
        same_fields(v@, r@),
    decreases v,
{
    let mut out: Vec<ClassField> = Vec::new();
    let mut i: usize = 0;
    while i < v.len()
        invariant
            i <= v.len(),
            out@.len() == i,
            forall|j: int| #![trigger v@[j]] 0 <= j < i ==> out@[j].name == v@[j].name && out@[j].index == v@[j].index
                && same_item(v@[j].item, out@[j].item),
        decreases v.len() - i,
    {
        out.push(v[i].duplicate());
        proof { assert(same_item(v@[i as int].item, out@[i as int].item)); }
        i = i + 1;
    }
    proof { assert(same_fields(v@, out@)); }
    out
}

impl Expression {
    pub fn duplicate(&self) -> (r: Expression)
        ensures
            same_expr(*self.expression, *r.expression),
        decreases self,
    {
        Expression { expression: Box::new(self.expression.duplicate()) }
    }
}

impl Block {
    pub fn duplicate(&self) -> (r: Block)
        ensures
            r.statements@.len() == self.statements@.len(),
            same_block(*self, r),
        decreases self,
    {
        Block { statements: duplicate_statements(&self.statements) }
    }
}

impl Method {
    pub fn duplicate(&self) -> (r: Method)
        ensures
            r.name == self.name,
            r.return_type@ == self.return_type@,
            same_params(self.arguments@, r.arguments@),
            same_block(self.body, r.body),
        decreases self,
    {
        Method {
            name: self.name.clone(),
            return_type: self.return_type.duplicate(),
            arguments: duplicate_params(&self.arguments),
            body: self.body.duplicate(),
        }
    }
}

impl ClassItem {
    pub fn duplicate(&self) -> (r: ClassItem)
        ensures
            same_item(*self, r),
        decreases self,
    {
        match self {
            ClassItem::Property(e) => ClassItem::Property(e.duplicate()),
            ClassItem::Method(m) => ClassItem::Method(m.duplicate()),
            ClassItem::Lazy(t) => ClassItem::Lazy(t.duplicate()),
        }
    }
}

impl ClassField {
    pub fn duplicate(&self) -> (r: ClassField)
        ensures
            r.name == self.name,
            r.index == self.index,
            same_item(self.item, r.item),
        decreases self,
    {
        ClassField { name: self.name.clone(), index: self.index, item: self.item.duplicate() }
    }
}

impl Statement {
    /// A copy of this statement.
    pub fn duplicate(&self) -> (r: Statement)
        ensures
            same_stmt(*self, r),
        decreases self,
    {
        match self {
            Statement::VariableDeclaration(v) => Statement::VariableDeclaration(VariableDeclaration {
                ident: v.ident.duplicate(),
                value: Box::new(v.value.duplicate()),
                data_type: v.data_type.duplicate(),
                location: (v.location.0, v.location.1),
            }),
            Statement::ConstantDeclaration(c) => Statement::ConstantDeclaration(ConstantDeclaration {
                ident: c.ident.duplicate(),
                value: Box::new(c.value.duplicate()),
                data_type: c.data_type.duplicate(),
            }),
            Statement::Expression(e) => Statement::Expression(Box::new(e.duplicate())),
            Statement::Block(b) => Statement::Block(b.duplicate()),
            Statement::VariableAssign(a) => Statement::VariableAssign(VariableAssign {
                ident: a.ident.duplicate(),
                value: Box::new(a.value.duplicate()),
            }),
            Statement::Return(r) => Statement::Return(ReturnStatement {
                expression: Box::new(r.expression.duplicate()),
            }),
            Statement::Import(i) => Statement::Import(Import {
                file: i.file.clone(),
                identifier: i.identifier.clone(),
            }),
            Statement::Export(e) => Statement::Export(Export { names: duplicate_strings(&e.names) }),
            Statement::Break(b) => Statement::Break(BreakStatement {
                expression: Box::new(b.expression.duplicate()),
            }),
            Statement::Class(c) => Statement::Class(Class {
                name: c.name.clone(),
                values: duplicate_fields(&c.values),
                inherits: c.inherits.clone(),
                public: c.public,
            }),
            Statement::Extend(e) => Statement::Extend(ExtendStatement {
                identifier: e.identifier.duplicate(),
                items: duplicate_fields(&e.items),
            }),
        }
    }
}


/// The statements of a block, from the cursor up to '}' (or the end of the input).
pub fn parse_block(p: &mut Parser) -> (r: Result<Block, SyntaxException>)
    requires
        old(p).wf(),
    ensures
        Parser::moved_on(old(p), final(p)),
        r is Ok ==> (final(p).cur().token == TokenType::RightBrace || final(p).cur().token == TokenType::Eof),
        old(p).fuel > 0 && (old(p).cur().token == TokenType::RightBrace || old(p).cur().token == TokenType::Eof)
            ==> (r matches Ok(b) && b.statements@.len() == 0) && final(p).lexer == old(p).lexer
                && *final(p) == (Parser { fuel: (old(p).fuel - 1) as u64, ..*old(p) }),
        old(p).fuel > 4 && single_operand_block(*old(p)) ==> (r matches Ok(b) && b.statements@.len() == 1
            && b.statements@[0] is Expression && leaf_expression(*old(p), *b.statements@[0]->Expression_0.expression))
            && final(p).lexer == old(p).lexer.stepped() && final(p).fuel + 5 >= old(p).fuel,
    decreases old(p).fuel,
{
    if !p.spend() {
        return Err(out_of_fuel());
    }
    let mut statements: Vec<Statement> = Vec::new();
    let ghost empty = old(p).cur().token == TokenType::RightBrace || old(p).cur().token == TokenType::Eof;
    let ghost start = *old(p);
    let ghost single = old(p).fuel > 4 && single_operand_block(start);
    while p.lexer.get_current_token().token != TokenType::RightBrace
        && p.lexer.get_current_token().token != TokenType::Eof
        invariant
            Parser::moved_on(old(p), p),
            p.fuel < old(p).fuel,
            empty == (old(p).cur().token == TokenType::RightBrace || old(p).cur().token == TokenType::Eof),
            empty ==> p.lexer == old(p).lexer && statements@.len() == 0
                && *p == (Parser { fuel: (old(p).fuel - 1) as u64, ..*old(p) }),
            single == (old(p).fuel > 4 && single_operand_block(start)),
            start == *old(p),
            single ==> ({
                ||| (statements@.len() == 0 && *p == Parser { fuel: (old(p).fuel - 1) as u64, ..start })
                ||| (statements@.len() == 1 && statements@[0] is Expression
                    && leaf_expression(start, *statements@[0]->Expression_0.expression)
                    && p.lexer == start.lexer.stepped() && p.cur().token == TokenType::RightBrace
                    && p.fuel + 5 >= old(p).fuel)
            }),
        decreases p.lexer.tokens@.len() - p.lexer.pos,
    {
        let tok = p.lexer.get_current_token().duplicate();
        let node = p.parse_statement(tok)?;
        match node {
            Node::Expression(exp) => statements.push(Statement::Expression(Box::new(Expression {
                expression: Box::new(exp),
            }))),
            Node::Statement(stmt) => statements.push(stmt),
        }
        p.lexer.next_token();
        proof {
            if single {
                assert(start.lexer.tokens@.last().token == TokenType::Eof);
                assert(start.lexer.pos + 1 < start.lexer.tokens@.len());
            }
        }
    }
    Ok(Block { statements })
}

/// `return <expression>`.
pub fn parse_return_statement(p: &mut Parser) -> (r: Result<Node, SyntaxException>)
    requires
        old(p).wf(),
    ensures
        Parser::moved_on(old(p), final(p)),
        r matches Ok(n) ==> n is Statement && n->Statement_0 is Return,
        old(p).fuel > 1 && single_token_operand(stepped_parser(*old(p)))
            && operand_ends(stepped_parser(*old(p)), Precedence::Lowest)
            ==> (r matches Ok(n) && n is Statement && n->Statement_0 is Return
                && leaf_expression(stepped_parser(*old(p)), *n->Statement_0->Return_0.expression)),
    decreases old(p).fuel,
{
    if !p.spend() {
        return Err(out_of_fuel());
    }
    p.lexer.next_token();
    let expr = p.parse_expression(Precedence::Lowest)?;
    if let Node::Expression(exp) = expr {
        return Ok(Node::Statement(Statement::Return(ReturnStatement { expression: Box::new(exp) })));
    }
    Err(SyntaxException::Unknown)
}

/// `<identifier> = <expression>`.
pub fn parse_variable_assignment(p: &mut Parser) -> (r: Result<Node, SyntaxException>)
    requires
        old(p).wf(),
    ensures
        Parser::moved_on(old(p), final(p)),
        r matches Ok(n) ==> n is Statement && n->Statement_0 is VariableAssign
            && n->Statement_0->VariableAssign_0.ident.value == old(p).cur().literal,
        old(p).fuel > 0 && old(p).lexer.peek().token != TokenType::Assign ==> r == Err::<Node, SyntaxException>(SyntaxException::ExpectedToken(TokenType::Assign)),
        old(p).fuel > 1 && old(p).lexer.peek().token == TokenType::Assign
            && single_token_operand(stepped_parser(stepped_parser(*old(p))))
            && operand_ends(stepped_parser(stepped_parser(*old(p))), Precedence::Lowest)
            ==> (r matches Ok(n) && n is Statement && n->Statement_0 is VariableAssign
                && leaf_expression(stepped_parser(stepped_parser(*old(p))), *n->Statement_0->VariableAssign_0.value)),
    decreases old(p).fuel,
{
    if !p.spend() {
        return Err(out_of_fuel());
    }
    let ident = parse_identifier(p)?.into_expression().into_identifier();
    p.lexer.next_token_is_and_next_token_result(TokenType::Assign)?;
    p.lexer.next_token();
    let expr = p.parse_expression(Precedence::Lowest)?;
    if let Node::Expression(exp) = expr {
        return Ok(Node::Statement(Statement::VariableAssign(VariableAssign {
            ident: Identifier::new(ident.value, ident.location.line, ident.location.colon),
            value: Box::new(exp),
        })));
    }
    Err(SyntaxException::Unknown)
}

/// `break`: breaks with a null value.
pub fn parse_break_statement(p: &mut Parser) -> (r: Result<Node, SyntaxException>)
    requires
        old(p).wf(),
    ensures
        *final(p) == *old(p),
        r == Ok::<Node, SyntaxException>(Node::Statement(Statement::Break(BreakStatement {
            expression: Box::new(crate::parser::expression::Expression::Null(Null {})),
        }))),
{
    Ok(Node::Statement(Statement::Break(BreakStatement {
        expression: Box::new(crate::parser::expression::Expression::Null(Null {})),
    })))
}

/// Whether the cursor is on `class` (or `extends`) followed by a name not yet defined as a
/// type, '{', one `<name> = <operand>` member, and '}'.
pub open spec fn one_property_class_follows(p: Parser) -> bool {
    let name = ahead(p.lexer, 1);
    &&& p.cur().token != TokenType::Eof
    &&& name.token == TokenType::Identifier
    &&& ahead(p.lexer, 2).token == TokenType::LeftBrace
    &&& property_item_follows(stepped_parser(stepped_parser(p)))
    &&& ahead(p.lexer, 6).token == TokenType::RightBrace
    &&& !(exists|i: int| 0 <= i < p.defined_types@.len() && (#[trigger] p.defined_types@[i])@ == name.literal@)
}

/// Whether the cursor is before `<name> = <operand>`: a name that is no type (neither a
/// primitive, `void`, `func` nor a defined type), '=', and a single-token operand that nothing
/// continues.
pub open spec fn property_item_follows(p: Parser) -> bool {
    let name = ahead(p.lexer, 1);
    let value = stepped_parser(stepped_parser(stepped_parser(p)));
    &&& p.cur().token != TokenType::Eof
    &&& name.token == TokenType::Identifier
    &&& primitive_named(name.literal@) is None
    &&& name.literal@ != "void"@
    &&& name.literal@ != "func"@
    &&& !(exists|i: int| 0 <= i < p.defined_types@.len() && (#[trigger] p.defined_types@[i])@ == name.literal@)
    &&& ahead(p.lexer, 2).token == TokenType::Assign
    &&& single_token_operand(value)
    &&& operand_ends(value, Precedence::Lowest)
}

/// One member of a class: `<type> <name>(<params>) { ... }` (a method),
/// `<type> <name>` (a field set later), or `<name> = <expression>` (a field with a value).
pub fn parse_class_item(p: &mut Parser, _class_name: &str) -> (r: Result<(String, ClassItem), SyntaxException>)
    requires
        old(p).wf(),
    ensures
        Parser::moved_on(old(p), final(p)),
        r is Ok ==> final(p).lexer.pos > old(p).lexer.pos,
        old(p).fuel > 1 && property_item_follows(*old(p)) ==> (r matches Ok((name, item))
            && name == ahead(old(p).lexer, 1).literal && item is Property
            && leaf_expression(stepped_parser(stepped_parser(stepped_parser(*old(p)))), *item->Property_0.expression)),
        old(p).fuel > 1 && property_item_follows(*old(p)) && ahead(old(p).lexer, 4).token != TokenType::Semicolon
            ==> final(p).lexer == stepped_parser(stepped_parser(stepped_parser(*old(p)))).lexer
                && final(p).defined_types == old(p).defined_types,
    decreases old(p).fuel,
{
    let ghost start = *old(p);
    let ghost s1 = stepped_parser(start);
    let ghost s2 = stepped_parser(s1);
    let ghost s3 = stepped_parser(s2);
    let ghost simple = old(p).fuel > 1 && property_item_follows(start);
    proof {
        if simple {
            lemma_step(start);
            lemma_step(s1);
            lemma_step(s2);
        }
    }
    if !p.spend() {
        return Err(out_of_fuel());
    }
    p.expected(TokenType::Identifier)?;
    let cur = p.lexer.get_current_token().duplicate();
    proof {
        if simple {
            assert(p.lexer == s1.lexer);
            assert(!array_marker_follows(p.lexer));
        }
    }
    if let Some(return_type) = p.parse_type(cur) {
        p.expected(TokenType::Identifier)?;
        let name = p.lexer.get_current_token().literal.clone();
        if let Some(_) = p.expected_maybe(TokenType::LeftParenthesis) {
            let parameters = parse_arguments(p)?;
            p.expected(TokenType::LeftBrace)?;
            p.lexer.next_token();
            let body = parse_block(p)?;
            Ok((name.clone(), ClassItem::Method(Method { name, return_type, arguments: parameters, body })))
        } else {
            Ok((name, ClassItem::Lazy(return_type)))
        }
    } else {
        let name = p.lexer.get_current_token().literal.clone();
        p.expected(TokenType::Assign)?;
        p.lexer.next_token();
        let ghost at = *p;
        proof {
            if simple {
                assert(p.lexer == s3.lexer);
                assert(single_token_operand(*p) == single_token_operand(s3));
                assert(operand_ends(*p, Precedence::Lowest) == operand_ends(s3, Precedence::Lowest));
            }
        }
        let value = p.parse_expression(Precedence::Lowest)?;
        proof {
            if simple {
                assert(value matches Node::Expression(e) && leaf_expression(at, e));
                assert(value matches Node::Expression(e) && leaf_expression(s3, e));
            }
        }
        p.expected_maybe(TokenType::Semicolon);
        if let Node::Expression(exp) = value {
            Ok((name, ClassItem::Property(Expression { expression: Box::new(exp) })))
        } else {
            Err(SyntaxException::Unknown)
        }
    }
}

/// `class <name> [< <parent>] { <members> }`. Type names are global: a class may be defined
/// once; its name becomes a known type.
pub fn parse_class_statement(p: &mut Parser) -> (r: Result<Node, SyntaxException>)
    requires
        old(p).wf(),
    ensures
        Parser::moved_on(old(p), final(p)),
        r matches Ok(n) ==> n is Statement && n->Statement_0 is Class
            && final(p).defined_types@.len() > 0
            && final(p).defined_types@.last() == n->Statement_0->Class_0.name,
        r matches Ok(n) ==> ahead(old(p).lexer, 1).token == TokenType::Identifier
            && n->Statement_0->Class_0.name == ahead(old(p).lexer, 1).literal
            && (if ahead(old(p).lexer, 2).token == TokenType::LeftArrow {
                n->Statement_0->Class_0.inherits == ahead(old(p).lexer, 3).literal
            } else {
                n->Statement_0->Class_0.inherits@ == Seq::<char>::empty()
            }),
        old(p).fuel > 0 && ahead(old(p).lexer, 1).token != TokenType::Identifier
            ==> r == Err::<Node, SyntaxException>(SyntaxException::ExpectedToken(TokenType::Identifier)),
        r matches Ok(n) ==> n->Statement_0->Class_0.public == old(p).next_public && !final(p).next_public,
        r matches Ok(n) ==> forall|k: int| 0 <= k < n->Statement_0->Class_0.values@.len()
            ==> (#[trigger] n->Statement_0->Class_0.values@[k]).index == (if k < u32::MAX { k } else { u32::MAX as int }),
        old(p).fuel > 2 && one_property_class_follows(*old(p)) ==> (r matches Ok(n) && ({
            let c = n->Statement_0->Class_0;
            let v = stepped_parser(stepped_parser(stepped_parser(stepped_parser(stepped_parser(*old(p))))));
            &&& c.values@.len() == 1
            &&& c.values@[0].name == ahead(old(p).lexer, 3).literal
            &&& c.values@[0].item is Property
            &&& leaf_expression(v, *c.values@[0].item->Property_0.expression)
        })),
    decreases old(p).fuel,
{
    let ghost start = *old(p);
    let ghost s2 = stepped_parser(stepped_parser(start));
    let ghost simple = old(p).fuel > 2 && one_property_class_follows(start);
    proof {
        if simple {
            lemma_step(start);
            lemma_step(stepped_parser(start));
            lemma_step(s2);
            lemma_step(stepped_parser(s2));
            lemma_step(stepped_parser(stepped_parser(s2)));
        }
    }
    if !p.spend() {
        return Err(out_of_fuel());
    }
    let public = p.next_public;
    p.next_public = false;
    p.expected(TokenType::Identifier)?;
    let name = p.lexer.get_current_token().literal.clone();
    let mut inherits = String::new();
    if p.expected_maybe(TokenType::LeftArrow).is_some() {
        p.expected(TokenType::Identifier)?;
        inherits = p.lexer.get_current_token().literal.clone();
    }
    p.expected(TokenType::LeftBrace)?;
    proof {
        if simple {
            assert(p.lexer == s2.lexer);
            assert(property_item_follows(*p) == property_item_follows(s2));
        }
    }
    let mut values: Vec<ClassField> = Vec::new();
    let mut depth: usize = 1;
    let mut index: u32 = 0;
    while depth > 0
        invariant
            Parser::moved_on(old(p), p),
            p.fuel < old(p).fuel,
            ahead(old(p).lexer, 1).token == TokenType::Identifier,
            start == *old(p),
            s2 == stepped_parser(stepped_parser(start)),
            simple == (old(p).fuel > 2 && one_property_class_follows(start)),
            simple ==> p.defined_types == start.defined_types,
            old(p).wf(),
            public == start.next_public,
            values@.len() < u32::MAX ==> index == values@.len(),
            values@.len() >= u32::MAX ==> index == u32::MAX,
            forall|k: int| 0 <= k < values@.len()
                ==> (#[trigger] values@[k]).index == (if k < u32::MAX { k } else { u32::MAX as int }),
            simple ==> ({
                ||| (values@.len() == 0 && depth == 1 && index == 0 && p.lexer == s2.lexer && p.fuel == start.fuel - 1
                    && property_item_follows(*p))
                ||| (values@.len() == 1 && depth == 0 && values@[0].name == ahead(start.lexer, 3).literal
                    && values@[0].item is Property
                    && leaf_expression(stepped_parser(stepped_parser(stepped_parser(s2))), *values@[0].item->Property_0.expression))
            }),
        decreases p.lexer.tokens@.len() - p.lexer.pos,
    {
        let ghost at = *p;
        let class_item = parse_class_item(p, name.as_str())?;
        proof {
            if simple {
                assert(ahead(at.lexer, 1) == ahead(start.lexer, 3));
                assert(ahead(at.lexer, 4) == ahead(start.lexer, 6));
                assert(stepped_parser(at).lexer == stepped_parser(s2).lexer);
                assert(stepped_parser(stepped_parser(at)).lexer == stepped_parser(stepped_parser(s2)).lexer);
                let s5 = stepped_parser(stepped_parser(stepped_parser(s2)));
                assert(p.lexer == s5.lexer);
                lemma_step(start);
                lemma_step(stepped_parser(start));
                lemma_step(s2);
                lemma_step(stepped_parser(s2));
                lemma_step(stepped_parser(stepped_parser(s2)));
                assert(ahead(s5.lexer, 1) == ahead(stepped_parser(stepped_parser(s2)).lexer, 2));
                assert(ahead(stepped_parser(stepped_parser(s2)).lexer, 2) == ahead(stepped_parser(s2).lexer, 3));
                assert(ahead(stepped_parser(s2).lexer, 3) == ahead(s2.lexer, 4));
                assert(ahead(s2.lexer, 4) == ahead(stepped_parser(start).lexer, 5));
                assert(ahead(s5.lexer, 1) == ahead(start.lexer, 6));
                assert(p.lexer.peek() == ahead(start.lexer, 6));
            }
        }
        let (item_name, item) = class_item;
        if let ClassItem::Method(_) = item {
            if depth < usize::MAX {
                depth = depth + 1;
            }
        }
        values.push(ClassField { index, name: item_name, item });
        if index < u32::MAX {
            index = index + 1;
        }
        while p.next_token_is(TokenType::RightBrace) && depth > 0
            invariant
                p.wf(),
            decreases depth,
        {
            depth = depth - 1;
        }
    }
    if contains_string(&p.defined_types, name.as_str()) {
        let message = concat(concat("Type \"", name.as_str()).as_str(), "\" already defined! (Type definitions are always root scoped)");
        p.throw_exception(Token { token: TokenType::Null, literal: owned("NONE") }, Some(message));
        return Err(SyntaxException::Unknown);
    }
    p.next_public = false;
    p.defined_types.push(name.clone());
    Ok(Node::Statement(Statement::Class(Class { inherits, name, values, public })))
}

/// `const [<type>] <identifier> := <expression>`.
pub fn parse_constant_declaration(p: &mut Parser) -> (r: Result<Node, SyntaxException>)
    requires
        old(p).wf(),
    ensures
        Parser::moved_on(old(p), final(p)),
        r matches Ok(n) ==> n is Statement && n->Statement_0 is ConstantDeclaration,
        r matches Ok(n) ==> (if ahead(old(p).lexer, 2).token == TokenType::Identifier {
            n->Statement_0->ConstantDeclaration_0.ident.value == ahead(old(p).lexer, 2).literal
        } else {
            &&& n->Statement_0->ConstantDeclaration_0.ident.value == ahead(old(p).lexer, 1).literal
            &&& n->Statement_0->ConstantDeclaration_0.data_type == Types::Auto
        }),
        old(p).fuel > 0 && old(p).lexer.peek().token != TokenType::Identifier ==> r is Err,
        old(p).fuel > 0 && ahead(old(p).lexer, 2).token != TokenType::Identifier
            && ahead(old(p).lexer, 2).token != TokenType::Colon ==> r is Err,
        old(p).fuel > 1 && old(p).cur().token != TokenType::Eof && ahead(old(p).lexer, 1).token == TokenType::Identifier
            && ahead(old(p).lexer, 2).token == TokenType::Colon && ahead(old(p).lexer, 3).token == TokenType::Assign
            && single_token_operand(stepped_parser(stepped_parser(stepped_parser(stepped_parser(*old(p))))))
            && operand_ends(stepped_parser(stepped_parser(stepped_parser(stepped_parser(*old(p))))), Precedence::Lowest)
            ==> (r matches Ok(n) && leaf_expression(stepped_parser(stepped_parser(stepped_parser(stepped_parser(*old(p))))),
                *n->Statement_0->ConstantDeclaration_0.value)),
        old(p).fuel > 3 && old(p).cur().token != TokenType::Eof && ahead(old(p).lexer, 1).token == TokenType::Identifier
            && ahead(old(p).lexer, 2).token == TokenType::Colon && ahead(old(p).lexer, 3).token == TokenType::Assign
            && binary_follows(stepped_parser(stepped_parser(stepped_parser(stepped_parser(*old(p))))), Precedence::Lowest)
            ==> (r matches Ok(n) && ({
                let v = stepped_parser(stepped_parser(stepped_parser(stepped_parser(*old(p)))));
                let d = n->Statement_0->ConstantDeclaration_0;
                &&& *d.value is Suffix
                &&& leaf_expression(v, d.value->Suffix_0.left)
                &&& d.value->Suffix_0.operator == v.lexer.peek().literal
                &&& leaf_expression(stepped_parser(stepped_parser(v)), d.value->Suffix_0.right)
            })),
    decreases old(p).fuel,
{
    let ghost start = *old(p);
    let ghost s1 = stepped_parser(start);
    let ghost s2 = stepped_parser(s1);
    let ghost s3 = stepped_parser(s2);
    let ghost s4 = stepped_parser(s3);
    let ghost bin = old(p).fuel > 3 && old(p).cur().token != TokenType::Eof
        && ahead(old(p).lexer, 1).token == TokenType::Identifier
        && ahead(old(p).lexer, 2).token == TokenType::Colon && ahead(old(p).lexer, 3).token == TokenType::Assign
        && binary_follows(s4, Precedence::Lowest);
    proof {
        if bin {
            lemma_step(start);
            lemma_step(s1);
            lemma_step(s2);
            lemma_step(s3);
        }
    }
    let ghost simple = old(p).fuel > 1 && old(p).cur().token != TokenType::Eof
        && ahead(old(p).lexer, 1).token == TokenType::Identifier
        && ahead(old(p).lexer, 2).token == TokenType::Colon && ahead(old(p).lexer, 3).token == TokenType::Assign
        && single_token_operand(s4) && operand_ends(s4, Precedence::Lowest);
    proof {
        if simple {
            lemma_step(start);
            lemma_step(s1);
            lemma_step(s2);
            lemma_step(s3);
        }
    }
    if !p.spend() {
        return Err(out_of_fuel());
    }
    if !p.next_token_is(TokenType::Identifier) {
        let message = owned("Syntax  -> const <datatype> <identifier> = <expression>\nExample -> const int i = 99\n\nThe identifiers can contain: letters, numbers and underscores.");
        return Err(SyntaxException::CustomMessage(owned("expected: Identifier"), Some(message)));
    }
    p.lexer.next_token();
    // The current token is the identifier, or the type when one is given
    let ident_or_type = p.lexer.get_current_token().duplicate();
    let ident = if p.next_token_is(TokenType::Identifier) {
        p.lexer.next_token();
        Some(p.lexer.get_current_token().duplicate())
    } else {
        None
    };
    if !p.next_token_is(TokenType::Colon) {
        let message = owned("Syntax  -> const <identifier> := <expression>\nExample -> const int i := 99\n\nFor explanation go here:\nhttps://looplang.org/docs/concepts/types/primitives");
        return Err(SyntaxException::CustomMessage(owned("expected: ':'"), Some(message)));
    }
    p.lexer.next_token();
    if !p.next_token_is(TokenType::Assign) {
        let message = owned("Syntax  -> const <datatype> <identifier> = <expression>\nExample -> const int i = 99\n\nFor explanation go here:\nhttps://looplang.org/docs/concepts/types/primitives");
        return Err(SyntaxException::CustomMessage(owned("expected: '='"), Some(message)));
    }
    p.lexer.next_token();
    p.lexer.next_token();
    let ghost at = *p;
    proof {
        if simple {
            assert(p.lexer == s4.lexer);
            assert(single_token_operand(*p) == single_token_operand(s4));
            assert(operand_ends(*p, Precedence::Lowest) == operand_ends(s4, Precedence::Lowest));
        }
    }
    proof {
        if bin {
            assert(p.lexer == s4.lexer);
            assert(binary_follows(*p, Precedence::Lowest) == binary_follows(s4, Precedence::Lowest));
            assert(stepped_parser(stepped_parser(*p)).lexer == stepped_parser(stepped_parser(s4)).lexer);
        }
    }
    let expr = p.parse_expression(Precedence::Lowest)?;
    proof {
        if simple {
            assert(expr matches Node::Expression(e) && leaf_expression(at, e));
            assert(expr matches Node::Expression(e) && leaf_expression(s4, e));
        }
        if bin {
            let q = stepped_parser(stepped_parser(at));
            assert(expr matches Node::Expression(e) && e is Suffix && leaf_expression(at, e->Suffix_0.left)
                && leaf_expression(q, e->Suffix_0.right));
            assert(leaf_expression(at, expr->Expression_0->Suffix_0.left) == leaf_expression(s4, expr->Expression_0->Suffix_0.left));
            assert(leaf_expression(q, expr->Expression_0->Suffix_0.right)
                == leaf_expression(stepped_parser(stepped_parser(s4)), expr->Expression_0->Suffix_0.right));
        }
    }
    let expression = match expr {
        Node::Expression(e) => e,
        Node::Statement(_) => {
            return Err(SyntaxException::Unknown);
        },
    };
    match ident {
        None => Ok(Node::Statement(Statement::ConstantDeclaration(ConstantDeclaration {
            ident: Identifier::new(ident_or_type.literal, 0, 0),
            value: Box::new(expression),
            data_type: Types::Auto,
        }))),
        Some(id) => {
            let data_type = match p.parse_type(ident_or_type) {
                Some(t) => t,
                None => {
                    return Err(SyntaxException::Unknown);
                },
            };
            Ok(Node::Statement(Statement::ConstantDeclaration(ConstantDeclaration {
                ident: Identifier::new(id.literal, 0, 0),
                value: Box::new(expression),
                data_type,
            })))
        },
    }
}

/// `export { a, b }`: the names between the braces.
pub fn parse_export_statement(p: &mut Parser) -> (r: Option<Node>)
    requires
        old(p).wf(),
    ensures
        Parser::moved_on(old(p), final(p)),
        final(p).fuel == old(p).fuel,
        r matches Some(n) ==> n is Statement && n->Statement_0 is Export,
        r matches Some(n) && ({
            let names = n->Statement_0->Export_0.names@;
            forall|i: int| 0 <= i < names.len() ==> (#[trigger] names[i])@ == ahead(old(p).lexer, 2 + 2 * i).literal@
        }),
        ahead(old(p).lexer, 1).token == TokenType::RightBrace
            ==> (r matches Some(n) && n->Statement_0->Export_0.names@.len() == 0),
{
    let ghost start = old(p).lexer;
    let ghost n = start.tokens@.len();
    proof {
        assert(n == start.tokens.len());
    }
    p.lexer.next_token();
    let mut names: Vec<String> = Vec::new();
    while p.lexer.get_current_token().token != TokenType::RightBrace
        && p.lexer.get_current_token().token != TokenType::Eof
        invariant
            Parser::moved_on(old(p), p),
            p.fuel == old(p).fuel,
            start == old(p).lexer,
            n == start.tokens@.len(),
            p.lexer.pos == if start.pos + 1 + 2 * names@.len() < n { start.pos + 1 + 2 * names@.len() } else { n - 1 },
            forall|i: int| 0 <= i < names@.len() ==> (#[trigger] names@[i])@ == ahead(start, 2 + 2 * i).literal@,
            ahead(start, 1).token == TokenType::RightBrace ==> names@.len() == 0,
        decreases p.lexer.tokens@.len() - p.lexer.pos,
    {
        proof {
            if ahead(start, 1).token == TokenType::RightBrace {
                assert(start.pos + 1 < n);
                assert(p.cur() == ahead(start, 1));
            }
        }
        p.lexer.next_token();
        let name = p.lexer.get_current_token().literal.clone();
        proof {
            assert(p.cur() == ahead(start, (2 + 2 * names@.len()) as int));
        }
        names.push(name);
        p.lexer.next_token();
    }
    Some(Node::Statement(Statement::Export(Export { names })))
}

/// An expression used as a statement.
pub fn parse_expression_statement(p: &mut Parser) -> (r: Result<Node, SyntaxException>)
    requires
        old(p).wf(),
    ensures
        Parser::moved_on(old(p), final(p)),
        r matches Ok(n) ==> n is Statement && n->Statement_0 is Expression,
        old(p).fuel > 1 && single_token_operand(*old(p)) && operand_ends(*old(p), Precedence::Lowest)
            ==> (r matches Ok(n) && n is Statement && n->Statement_0 is Expression
                && leaf_expression(*old(p), *n->Statement_0->Expression_0.expression))
                && final(p).lexer == old(p).lexer && final(p).fuel + 2 == old(p).fuel,
        old(p).fuel > 3 && binary_follows(*old(p), Precedence::Lowest) ==> ({
            let e = *r->Ok_0->Statement_0->Expression_0.expression;
            &&& r matches Ok(n) && n is Statement && n->Statement_0 is Expression
            &&& e is Suffix
            &&& leaf_expression(*old(p), e->Suffix_0.left)
            &&& e->Suffix_0.operator == old(p).lexer.peek().literal
            &&& leaf_expression(stepped_parser(stepped_parser(*old(p))), e->Suffix_0.right)
        }),
    decreases old(p).fuel,
{
    if !p.spend() {
        return Err(out_of_fuel());
    }
    let expr = p.parse_expression(Precedence::Lowest)?;
    if let Node::Expression(exp) = expr {
        return Ok(Node::Statement(Statement::Expression(Box::new(Expression { expression: Box::new(exp) }))));
    }
    Err(SyntaxException::Unknown)
}

/// `extends <type> { <members> }`: parsed like a class; the members extend the type.
pub fn parse_extend_statement(p: &mut Parser) -> (r: Result<Node, SyntaxException>)
    requires
        old(p).wf(),
    ensures
        Parser::moved_on(old(p), final(p)),
        r matches Ok(n) ==> n is Statement && n->Statement_0 is Extend,
        old(p).fuel > 3 && one_property_class_follows(*old(p)) ==> (r matches Ok(n) && ({
            let e = n->Statement_0->Extend_0;
            let v = stepped_parser(stepped_parser(stepped_parser(stepped_parser(stepped_parser(*old(p))))));
            &&& e.identifier.value == ahead(old(p).lexer, 1).literal
            &&& e.items@.len() == 1
            &&& e.items@[0].name == ahead(old(p).lexer, 3).literal
            &&& e.items@[0].item is Property
            &&& leaf_expression(v, *e.items@[0].item->Property_0.expression)
        })),
    decreases old(p).fuel,
{
    let ghost start = *old(p);
    if !p.spend() {
        return Err(out_of_fuel());
    }
    let ghost at = *p;
    proof {
        let v = stepped_parser(stepped_parser(stepped_parser(stepped_parser(stepped_parser(start)))));
        let w = stepped_parser(stepped_parser(stepped_parser(stepped_parser(stepped_parser(at)))));
        assert(w.lexer == v.lexer);
        assert(one_property_class_follows(at) == one_property_class_follows(start));
        assert(forall|e: crate::parser::expression::Expression| leaf_expression(w, e) == leaf_expression(v, e));
    }
    let class_statement = parse_class_statement(p)?;
    match class_statement {
        Node::Statement(Statement::Class(class)) => Ok(Node::Statement(Statement::Extend(ExtendStatement {
            identifier: Identifier::new(class.name, 0, 0),
            items: class.values,
        }))),
        _ => Err(SyntaxException::Unknown),
    }
}

/// `import "<file>" as <identifier>`.
pub fn parse_import_statement(p: &mut Parser) -> (r: Result<Node, SyntaxException>)
    requires
        old(p).wf(),
    ensures
        Parser::moved_on(old(p), final(p)),
        final(p).fuel == old(p).fuel,
        r matches Ok(n) ==> n is Statement && n->Statement_0 is Import,
        r is Ok <==> (ahead(old(p).lexer, 1).token == TokenType::String && ahead(old(p).lexer, 2).token == TokenType::As
            && ahead(old(p).lexer, 3).token == TokenType::Identifier),
        r matches Ok(n) ==> n->Statement_0->Import_0.file == ahead(old(p).lexer, 1).literal
            && n->Statement_0->Import_0.identifier == ahead(old(p).lexer, 3).literal,
{
    let ghost start = *old(p);
    proof {
        assert(start.lexer.tokens@.len() == start.lexer.tokens.len());
        if start.cur().token != TokenType::Eof {
            lemma_step(start);
            if stepped_parser(start).cur().token != TokenType::Eof {
                lemma_step(stepped_parser(start));
            }
        }
    }
    p.lexer.next_token_is_and_next_token_result(TokenType::String)?;
    let file = p.lexer.get_current_token().literal.clone();
    p.lexer.next_token_is_and_next_token_result(TokenType::As)?;
    p.lexer.next_token_is_and_next_token_result(TokenType::Identifier)?;
    let identifier = p.lexer.get_current_token().literal.clone();
    Ok(Node::Statement(Statement::Import(Import { file, identifier })))
}

/// Where the value of a declaration starts: after `:=`, or after `=` when no ':' follows
/// the name.
pub open spec fn declared_value(p: Parser) -> Parser {
    if ahead(p.lexer, 1).token == TokenType::Colon {
        stepped_parser(stepped_parser(stepped_parser(p)))
    } else {
        stepped_parser(stepped_parser(p))
    }
}

/// Whether the name under the cursor is followed by `:=` or by `=`.
pub open spec fn declaration_sign_follows(lexer: crate::lexer::Lexer) -> bool {
    ||| (ahead(lexer, 1).token == TokenType::Colon && ahead(lexer, 2).token == TokenType::Assign)
    ||| ahead(lexer, 1).token == TokenType::Assign
}

/// `[<type>] <identifier> := <expression>`, or `<type> <identifier> = <expression>` (such
/// as `int i = 13 + 4`); the type is inferred when none is given.
pub fn parse_variable_declaration(p: &mut Parser, types: Option<Types>) -> (r: Result<Node, SyntaxException>)
    requires
        old(p).wf(),
    ensures
        Parser::moved_on(old(p), final(p)),
        r matches Ok(n) ==> n is Statement && n->Statement_0 is VariableDeclaration
            && n->Statement_0->VariableDeclaration_0.ident.value == old(p).cur().literal
            && (types is None ==> n->Statement_0->VariableDeclaration_0.data_type == Types::Auto)
            && (types matches Some(t) ==> n->Statement_0->VariableDeclaration_0.data_type == t),
        old(p).fuel > 0 && old(p).cur().token != TokenType::Eof && !declaration_sign_follows(old(p).lexer) ==> r is Err,
        old(p).fuel > 1 && old(p).cur().token != TokenType::Eof && declaration_sign_follows(old(p).lexer)
            && single_token_operand(declared_value(*old(p))) && operand_ends(declared_value(*old(p)), Precedence::Lowest)
            ==> (r matches Ok(n) && n is Statement && n->Statement_0 is VariableDeclaration
                && leaf_expression(declared_value(*old(p)), *n->Statement_0->VariableDeclaration_0.value)),
        old(p).fuel > 3 && old(p).cur().token != TokenType::Eof && declaration_sign_follows(old(p).lexer)
            && binary_follows(declared_value(*old(p)), Precedence::Lowest) ==> ({
            let q = declared_value(*old(p));
            let e = *r->Ok_0->Statement_0->VariableDeclaration_0.value;
            &&& r matches Ok(n) && n is Statement && n->Statement_0 is VariableDeclaration
            &&& e is Suffix
            &&& leaf_expression(q, e->Suffix_0.left)
            &&& e->Suffix_0.operator == q.lexer.peek().literal
            &&& leaf_expression(stepped_parser(stepped_parser(q)), e->Suffix_0.right)
        }),
    decreases old(p).fuel,
{
    let ghost start = *old(p);
    let ghost s1 = stepped_parser(start);
    let ghost s2 = stepped_parser(s1);
    let ghost q = declared_value(start);
    let ghost sign = old(p).cur().token != TokenType::Eof && declaration_sign_follows(start.lexer);
    proof {
        if sign {
            lemma_step(start);
            lemma_step(s1);
            if ahead(start.lexer, 1).token == TokenType::Colon {
                lemma_step(s2);
            }
        }
    }
    if !p.spend() {
        return Err(out_of_fuel());
    }
    let ident = parse_identifier(p)?.into_expression().into_identifier();
    let datatype = match types {
        Some(t) => t,
        None => Types::Auto,
    };
    if p.next_token_is(TokenType::Colon) {
        p.lexer.next_token();
        if !p.next_token_is(TokenType::Assign) {
            let message = if datatype.is_auto() {
                owned("Syntax  -> <identifier> := <expression>\nExample -> int i := 99\n\nFor explanation go here:\nhttps://looplang.org/docs/concepts/types/primitives")
            } else {
                let tn = datatype.transpile();
                let first = concat("Syntax  ->  <datatype> <identifier> := <expression>\nExample -> ", tn.as_str());
                concat(first.as_str(), " i := 99\n\nFor explanation go here:\nhttps://looplang.org/docs/concepts/types/primitives")
            };
            return Err(SyntaxException::CustomMessage(owned("expected: '='"), Some(message)));
        }
    } else if !p.next_token_is(TokenType::Assign) {
        let message = owned("Syntax  -> <identifier> := <expression>\nExample -> i := 99\n\nFor explanation go here:\nhttps://looplang.org/docs/concepts/types/primitives");
        return Err(SyntaxException::CustomMessage(owned("expected: ':'"), Some(message)));
    }
    p.lexer.next_token();
    p.lexer.next_token();
    let ghost at = *p;
    proof {
        if sign {
            assert(p.lexer == q.lexer);
            assert(single_token_operand(*p) == single_token_operand(q));
            assert(operand_ends(*p, Precedence::Lowest) == operand_ends(q, Precedence::Lowest));
            assert(binary_follows(*p, Precedence::Lowest) == binary_follows(q, Precedence::Lowest));
            assert(stepped_parser(stepped_parser(*p)).lexer == stepped_parser(stepped_parser(q)).lexer);
        }
    }
    let expr = p.parse_expression(Precedence::Lowest)?;
    proof {
        if sign {
            assert(forall|e: crate::parser::expression::Expression| leaf_expression(at, e) == leaf_expression(q, e));
            assert(forall|e: crate::parser::expression::Expression|
                leaf_expression(stepped_parser(stepped_parser(at)), e) == leaf_expression(stepped_parser(stepped_parser(q)), e));
        }
    }
    if let Node::Expression(exp) = expr {
        return Ok(Node::Statement(Statement::VariableDeclaration(VariableDeclaration {
            ident: Identifier::new(ident.value, ident.location.line, ident.location.colon),
            value: Box::new(exp),
            data_type: datatype,
            location: (p.lexer.current_line, p.lexer.current_col),
        })));
    }
    Err(SyntaxException::Unknown)
}

} // verus!
