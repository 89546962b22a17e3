//! Responsible for parsing tokens into an abstract syntax tree.
use vstd::prelude::*;
use crate::exception::{Exception, SyntaxError, SyntaxException};
use crate::lexer::{Lexer, Token, TokenType};
use crate::parser::expression::{
    Expression, Precedence, parse_number_literal, parse_negative_number,
    parse_grouped_expression, parse_identifier, parse_boolean, parse_inverted_boolean,
    parse_function, parse_conditional, parse_expression_null, parse_string_literal,
    parse_expression_array, parse_loop, parse_expression_hashmap, parse_suffix_expression,
    parse_call, parse_index_expression, precedence_rank, number_value_fits, Integer, Identifier,
    Location, Boolean, Null, LoopString, ahead,
};
use crate::parser::program::{Node, Program};
use crate::parser::statement::{
    Statement, parse_constant_declaration, parse_variable_assignment, parse_variable_declaration,
    parse_return_statement, parse_import_statement, parse_break_statement, parse_class_statement,
    parse_extend_statement,
};
use crate::types::{BaseTypes, FunctionType, Types};
use crate::text::{owned, str_eq, digits_value};

pub mod expression;
pub mod program;
pub mod statement;

verus! {

/// The functions that parse an expression starting at a token.
#[derive(Clone, Copy, PartialEq, Eq, Structural, Debug)]
pub enum PrefixParser {
    NumberLiteral,
    NegativeNumber,
    Grouped,
    Identifier,
    Boolean,
    InvertedBoolean,
    Function,
    Conditional,
    Null,
    StringLiteral,
    Array,
    Loop,
    Hashmap,
}

/// The functions that continue an expression at an operator token.
#[derive(Clone, Copy, PartialEq, Eq, Structural, Debug)]
pub enum InfixParser {
    Suffix,
    Call,
    Index,
}

/// The parser itself, containing metadata needed during the parsing process.
pub struct Parser {
    pub lexer: Lexer,
    pub prefix_parser: Vec<(TokenType, PrefixParser)>,
    pub infix_parser: Vec<(TokenType, InfixParser)>,
    pub errors: Vec<Exception>,
    pub defined_types: Vec<String>,
    pub next_public: bool,
    pub current_file: String,
    /// The syntax error that ended parsing, when one did.
    pub thrown: Option<SyntaxError>,
    /// Remaining parsing steps; every nested parsing function spends one.
    pub fuel: u64,
}

/// Whether `[` and `]` are the two tokens after the cursor.
pub open spec fn array_marker_follows(lexer: Lexer) -> bool {
    &&& lexer.pos + 2 < lexer.tokens@.len()
    &&& lexer.tokens@[lexer.pos + 1].token == TokenType::LeftBracket
    &&& lexer.tokens@[lexer.pos + 2].token == TokenType::RightBracket
}

/// The primitive type a type name stands for.
pub open spec fn primitive_named(name: Seq<char>) -> Option<BaseTypes> {
    if name == "int"@ {
        Some(BaseTypes::Integer)
    } else if name == "bool"@ {
        Some(BaseTypes::Boolean)
    } else if name == "string"@ {
        Some(BaseTypes::String)
    } else if name == "float"@ {
        Some(BaseTypes::Float)
    } else {
        None
    }
}

/// The primitive type a type name stands for.
fn primitive_base(name: &str) -> (r: Option<BaseTypes>)
    ensures
        r == primitive_named(name@),
{
    if str_eq(name, "int") {
        Some(BaseTypes::Integer)
    } else if str_eq(name, "bool") {
        Some(BaseTypes::Boolean)
    } else if str_eq(name, "string") {
        Some(BaseTypes::String)
    } else if str_eq(name, "float") {
        Some(BaseTypes::Float)
    } else {
        None
    }
}

/// Whether the cursor is on a block's only statement, a single-token operand followed by the
/// block's closing brace.
pub open spec fn single_operand_block(p: Parser) -> bool {
    &&& single_token_operand(p)
    &&& !starts_statement(p.cur().token)
    &&& p.cur().token != TokenType::RightBrace
    &&& p.cur().token != TokenType::Eof
    &&& p.lexer.peek().token == TokenType::RightBrace
}

/// Whether the cursor is on a whole program made of one single-token operand: a token that
/// is no statement keyword and is followed by the end of the input.
pub open spec fn single_operand_program(p: Parser) -> bool {
    &&& p.fuel > 3
    &&& single_token_operand(p)
    &&& !starts_statement(p.cur().token)
    &&& p.cur().token != TokenType::Eof
    &&& p.lexer.peek().token == TokenType::Eof
}

/// Whether a token starts a statement other than an expression.
pub open spec fn starts_statement(t: TokenType) -> bool {
    ||| t == TokenType::ConstantDeclaration
    ||| t == TokenType::Return
    ||| t == TokenType::Import
    ||| t == TokenType::Break
    ||| t == TokenType::Class
    ||| t == TokenType::Extends
    ||| t == TokenType::Public
}

/// Whether the cursor is on a single-token operand, an operator that binds more strongly than
/// `precedence` and is read as a binary operation, and a second single-token operand that
/// nothing continues: `left <op> right` is the whole expression.
pub open spec fn binary_follows(p: Parser, precedence: Precedence) -> bool {
    let op = p.lexer.peek().token;
    let q = stepped_parser(stepped_parser(p));
    &&& single_token_operand(p)
    &&& op != TokenType::Semicolon
    &&& precedence_rank(precedence) < precedence_rank(spec_precedence(op))
    &&& spec_lookup(p.infix_parser@, op) == Some(InfixParser::Suffix)
    &&& single_token_operand(q)
    &&& operand_ends(q, spec_precedence(op))
    &&& operand_ends(q, precedence)
}

/// The parser after its cursor moves forward by one token.
pub open spec fn stepped_parser(p: Parser) -> Parser {
    Parser { lexer: p.lexer.stepped(), ..p }
}

/// Whether the token under the cursor is a whole operand by itself: a number, a name, a
/// boolean, `null` or a string, read by its prefix parser without moving the cursor.
pub open spec fn single_token_operand(p: Parser) -> bool {
    match spec_lookup(p.prefix_parser@, p.cur().token) {
        Some(PrefixParser::NumberLiteral) => p.cur().token == TokenType::Integer || p.cur().token == TokenType::Float,
        Some(PrefixParser::Identifier) | Some(PrefixParser::Boolean) | Some(PrefixParser::Null)
            | Some(PrefixParser::StringLiteral) => true,
        _ => false,
    }
}

/// Whether the cursor is on `-` followed by a number that nothing continues in an expression
/// of this precedence.
pub open spec fn negative_number_follows(p: Parser, precedence: Precedence) -> bool {
    &&& p.cur().token != TokenType::Eof
    &&& spec_lookup(p.prefix_parser@, p.cur().token) == Some(PrefixParser::NegativeNumber)
    &&& (p.lexer.peek().token == TokenType::Integer || p.lexer.peek().token == TokenType::Float)
    &&& operand_ends(stepped_parser(p), precedence)
}

/// The value `-<lit>` reads as: a negated integer when the digits fit, a float text otherwise.
pub open spec fn negative_value(lit: Seq<char>, e: Expression) -> bool {
    if number_value_fits(lit) {
        e == Expression::Integer(Integer { value: (-digits_value(lit)) as i64 })
    } else {
        e is Float && e->Float_0.value@ == seq!['-'] + lit
    }
}

/// Whether nothing continues the operand under the cursor in an expression of this
/// precedence: a ';' follows, or an operator that does not bind more strongly.
pub open spec fn operand_ends(p: Parser, precedence: Precedence) -> bool {
    ||| p.lexer.peek().token == TokenType::Semicolon
    ||| precedence_rank(spec_precedence(p.lexer.peek().token)) <= precedence_rank(precedence)
}

/// The expression that the single-token operand under the cursor reads as.
pub open spec fn leaf_expression(p: Parser, e: Expression) -> bool {
    let lit = p.cur().literal;
    match spec_lookup(p.prefix_parser@, p.cur().token) {
        Some(PrefixParser::NumberLiteral) => if number_value_fits(lit@) {
            e == Expression::Integer(Integer { value: digits_value(lit@) as i64 })
        } else {
            e is Float && e->Float_0.value@ == lit@
        },
        Some(PrefixParser::Identifier) => e == Expression::Identifier(Identifier {
            value: lit,
            location: Location { line: p.lexer.current_line, colon: p.lexer.current_col },
        }),
        Some(PrefixParser::Boolean) => e == Expression::Boolean(Boolean { value: lit@ == "true"@ }),
        Some(PrefixParser::Null) => e == Expression::Null(Null {}),
        Some(PrefixParser::StringLiteral) => e == Expression::String(LoopString { value: lit }),
        _ => false,
    }
}

/// The precedence of the operator a token stands for.
pub open spec fn spec_precedence(t: TokenType) -> Precedence {
    match t {
        TokenType::Equals | TokenType::NotEquals => Precedence::Equals,
        TokenType::LeftArrow | TokenType::RightArrow | TokenType::GreaterThanOrEquals
            | TokenType::LessThanOrEquals => Precedence::LessGreater,
        TokenType::Plus | TokenType::Minus => Precedence::Sum,
        TokenType::Multiply | TokenType::Divide | TokenType::Modulo => Precedence::Product,
        TokenType::Power => Precedence::Power,
        TokenType::LeftParenthesis => Precedence::Call,
        TokenType::LeftBracket | TokenType::Dot => Precedence::Index,
        TokenType::And | TokenType::Or => Precedence::Logical,
        _ => Precedence::Lowest,
    }
}

/// The precedence of the operator a token stands for.
pub fn get_precedence(t: TokenType) -> (r: Precedence)
    ensures
        r == spec_precedence(t),
{
    match t {
        TokenType::Equals | TokenType::NotEquals => Precedence::Equals,
        TokenType::LeftArrow | TokenType::RightArrow | TokenType::GreaterThanOrEquals
            | TokenType::LessThanOrEquals => Precedence::LessGreater,
        TokenType::Plus | TokenType::Minus => Precedence::Sum,
        TokenType::Multiply | TokenType::Divide | TokenType::Modulo => Precedence::Product,
        TokenType::Power => Precedence::Power,
        TokenType::LeftParenthesis => Precedence::Call,
        TokenType::LeftBracket | TokenType::Dot => Precedence::Index,
        TokenType::And | TokenType::Or => Precedence::Logical,
        _ => Precedence::Lowest,
    }
}

/// Operators bind in the order of the language, from weakest to strongest:
/// `and`/`or`, then `==`/`!=`, then the comparisons `<`, `>`, `>=`, `<=`, then
/// `+`/`-`, then `*`/`/`/`%`, then `^`, then a call's `(`, then indexing by `[`
/// or `.`; operators of one group bind equally strongly, and any other token
/// binds more weakly than every operator.
pub proof fn law_operator_precedence(other: TokenType)
    requires
        !(other is Equals || other is NotEquals || other is LeftArrow || other is RightArrow
            || other is GreaterThanOrEquals || other is LessThanOrEquals || other is Plus
            || other is Minus || other is Multiply || other is Divide || other is Modulo
            || other is Power || other is LeftParenthesis || other is LeftBracket || other is Dot
            || other is And || other is Or),
    ensures
        precedence_rank(spec_precedence(other)) == 0,
        0 < precedence_rank(spec_precedence(TokenType::And)),
        precedence_rank(spec_precedence(TokenType::And)) == precedence_rank(spec_precedence(TokenType::Or)),
        precedence_rank(spec_precedence(TokenType::Or)) < precedence_rank(spec_precedence(TokenType::Equals)),
        precedence_rank(spec_precedence(TokenType::Equals)) == precedence_rank(spec_precedence(TokenType::NotEquals)),
        precedence_rank(spec_precedence(TokenType::NotEquals)) < precedence_rank(spec_precedence(TokenType::LeftArrow)),
        precedence_rank(spec_precedence(TokenType::LeftArrow)) == precedence_rank(spec_precedence(TokenType::RightArrow)),
        precedence_rank(spec_precedence(TokenType::RightArrow)) == precedence_rank(spec_precedence(TokenType::GreaterThanOrEquals)),
        precedence_rank(spec_precedence(TokenType::GreaterThanOrEquals)) == precedence_rank(spec_precedence(TokenType::LessThanOrEquals)),
        precedence_rank(spec_precedence(TokenType::LessThanOrEquals)) < precedence_rank(spec_precedence(TokenType::Plus)),
        precedence_rank(spec_precedence(TokenType::Plus)) == precedence_rank(spec_precedence(TokenType::Minus)),
        precedence_rank(spec_precedence(TokenType::Minus)) < precedence_rank(spec_precedence(TokenType::Multiply)),
        precedence_rank(spec_precedence(TokenType::Multiply)) == precedence_rank(spec_precedence(TokenType::Divide)),
        precedence_rank(spec_precedence(TokenType::Divide)) == precedence_rank(spec_precedence(TokenType::Modulo)),
        precedence_rank(spec_precedence(TokenType::Modulo)) < precedence_rank(spec_precedence(TokenType::Power)),
        precedence_rank(spec_precedence(TokenType::Power)) < precedence_rank(spec_precedence(TokenType::LeftParenthesis)),
        precedence_rank(spec_precedence(TokenType::LeftParenthesis)) < precedence_rank(spec_precedence(TokenType::LeftBracket)),
        precedence_rank(spec_precedence(TokenType::LeftBracket)) == precedence_rank(spec_precedence(TokenType::Dot)),
{
}

/// The entry registered for a token, if any.
pub open spec fn spec_lookup<T>(table: Seq<(TokenType, T)>, t: TokenType) -> Option<T>
    decreases table.len(),
{
    if table.len() == 0 {
        None
    } else if table.last().0 == t {
        Some(table.last().1)
    } else {
        spec_lookup(table.drop_last(), t)
    }
}

fn lookup_prefix(table: &Vec<(TokenType, PrefixParser)>, t: TokenType) -> (r: Option<PrefixParser>)
    ensures
        r == spec_lookup(table@, t),
{
    let mut i: usize = table.len();
    assert(table@.take(i as int) =~= table@);
    while i > 0
        invariant
            i <= table.len(),
            spec_lookup(table@, t) == spec_lookup(table@.take(i as int), t),
        decreases i,
    {
        assert(table@.take(i as int).drop_last() =~= table@.take(i - 1));
        if table[i - 1].0 == t {
            return Some(table[i - 1].1);
        }
        i = i - 1;
    }
    None
}

fn lookup_infix(table: &Vec<(TokenType, InfixParser)>, t: TokenType) -> (r: Option<InfixParser>)
    ensures
        r == spec_lookup(table@, t),
{
    let mut i: usize = table.len();
    assert(table@.take(i as int) =~= table@);
    while i > 0
        invariant
            i <= table.len(),
            spec_lookup(table@, t) == spec_lookup(table@.take(i as int), t),
        decreases i,
    {
        assert(table@.take(i as int).drop_last() =~= table@.take(i - 1));
        if table[i - 1].0 == t {
            return Some(table[i - 1].1);
        }
        i = i - 1;
    }
    None
}

/// The error given when the parsing step budget runs out.
pub fn out_of_fuel() -> (r: SyntaxException)
    ensures
        r matches SyntaxException::CustomMessage(title, extra) && title@ == "parser step limit reached"@ && extra is None,
{
    SyntaxException::CustomMessage(owned("parser step limit reached"), None)
}

impl Parser {
    pub open spec fn wf(&self) -> bool {
        self.lexer.wf()
    }

    /// What every parsing function keeps: a well-formed parser over the same token stream,
    /// its cursor no further back, no more fuel than before, and the same parsing tables.
    pub open spec fn moved_on(old: &Parser, new: &Parser) -> bool {
        &&& new.wf()
        &&& Lexer::same_stream(&old.lexer, &new.lexer)
        &&& new.fuel <= old.fuel
        &&& new.prefix_parser == old.prefix_parser
        &&& new.infix_parser == old.infix_parser
    }

    /// The token under the cursor.
    pub open spec fn cur(&self) -> Token {
        self.lexer.cur()
    }

    /// Spends one parsing step; false when none is left.
    pub fn spend(&mut self) -> (ok: bool)
        requires
            old(self).wf(),
        ensures
            final(self).wf(),
            final(self).lexer == old(self).lexer,
            ok == (old(self).fuel > 0),
            ok ==> final(self).fuel == old(self).fuel - 1,
            !ok ==> final(self).fuel == old(self).fuel,
            final(self).defined_types == old(self).defined_types,
            final(self).prefix_parser == old(self).prefix_parser,
            final(self).infix_parser == old(self).infix_parser,
            *final(self) == (Parser { fuel: final(self).fuel, ..*old(self) }),
    {
        if self.fuel == 0 {
            false
        } else {
            self.fuel = self.fuel - 1;
            true
        }
    }

    /// Parses a whole program: statements up to the end of the input.
    pub fn parse(&mut self) -> (r: Result<Program, SyntaxException>)
        requires
            old(self).wf(),
        ensures
            Parser::moved_on(old(self), final(self)),
            r is Ok ==> final(self).cur().token == TokenType::Eof,
            old(self).cur().token == TokenType::Eof ==> (r matches Ok(prog) && prog.statements@.len() == 0),
            single_operand_program(*old(self)) ==> (r matches Ok(prog) && prog.statements@.len() == 1
                && prog.statements@[0] is Expression
                && leaf_expression(*old(self), *prog.statements@[0]->Expression_0.expression)),
    {
        let ghost start = *old(self);
        let ghost single = single_operand_program(start);
        let mut statements: Vec<Statement> = Vec::new();
        while self.lexer.get_current_token().token != TokenType::Eof
            invariant
                Parser::moved_on(old(self), self),
                start == *old(self),
                single == single_operand_program(start),
                old(self).cur().token == TokenType::Eof ==> statements@.len() == 0,
                single ==> ({
                    ||| (statements@.len() == 0 && *self == start)
                    ||| (statements@.len() == 1 && statements@[0] is Expression
                        && leaf_expression(start, *statements@[0]->Expression_0.expression)
                        && self.cur().token == TokenType::Eof)
                }),
            decreases self.lexer.tokens@.len() - self.lexer.pos,
        {
            let tok = self.lexer.get_current_token().duplicate();
            let ghost before = self.lexer.pos;
            let ghost first = single && *self == start;
            let new_statement = self.parse_statement(tok);
            match new_statement {
                Err(error) => {
                    return Err(error);
                },
                Ok(Node::Expression(exp)) => {
                    statements.push(Statement::Expression(Box::new(crate::parser::statement::Expression {
                        expression: Box::new(exp),
                    })));
                },
                Ok(Node::Statement(stmt)) => {
                    statements.push(stmt);
                },
            }
            self.lexer.next_token();
            proof {
                if first {
                    assert(self.lexer.pos == start.lexer.pos + 1);
                    assert(self.cur() == start.lexer.peek());
                }
            }
        }
        Ok(Program { statements })
    }

    /// Moves to the next token when it is of kind `token`; otherwise records a syntax error
    /// and fails with `ExpectedToken(token)`.
    pub fn expected(&mut self, token: TokenType) -> (r: Result<(), SyntaxException>)
        requires
            old(self).wf(),
        ensures
            final(self).wf(),
            final(self).fuel == old(self).fuel,
            final(self).defined_types == old(self).defined_types,
            final(self).prefix_parser == old(self).prefix_parser,
            final(self).infix_parser == old(self).infix_parser,
            r is Ok == (old(self).lexer.peek().token == token),
            r is Ok ==> Lexer::advanced(&old(self).lexer, &final(self).lexer),
            r is Err ==> final(self).lexer == old(self).lexer
                && r == Err::<(), SyntaxException>(SyntaxException::ExpectedToken(token))
                && final(self).thrown is Some,
    {
        if !self.lexer.next_token_is_and_next_token(token) {
            self.throw_exception(Token { token, literal: String::new() }, None);
            return Err(SyntaxException::ExpectedToken(token));
        }
        Ok(())
    }

    /// Moves to the next token when it is of kind `token`, and says whether it did.
    pub fn expected_maybe(&mut self, token: TokenType) -> (r: Option<()>)
        requires
            old(self).wf(),
        ensures
            final(self).wf(),
            final(self).fuel == old(self).fuel,
            final(self).defined_types == old(self).defined_types,
            final(self).prefix_parser == old(self).prefix_parser,
            final(self).infix_parser == old(self).infix_parser,
            r is Some == (old(self).lexer.peek().token == token),
            r is Some ==> Lexer::advanced(&old(self).lexer, &final(self).lexer),
            r is None ==> final(self).lexer == old(self).lexer,
    {
        if !self.lexer.next_token_is_and_next_token(token) {
            return None;
        }
        Some(())
    }

    /// Whether `[` `]` follow the cursor; moves over what it matched.
    pub fn peek_is_array(&mut self) -> (r: bool)
        requires
            old(self).wf(),
        ensures
            final(self).wf(),
            Lexer::same_stream(&old(self).lexer, &final(self).lexer),
            final(self).fuel == old(self).fuel,
            final(self).defined_types == old(self).defined_types,
            final(self).prefix_parser == old(self).prefix_parser,
            final(self).infix_parser == old(self).infix_parser,
            r == array_marker_follows(old(self).lexer),
            r ==> final(self).lexer.pos == old(self).lexer.pos + 2,
            old(self).lexer.peek().token != TokenType::LeftBracket ==> !r && *final(self) == *old(self),
    {
        if self.peek_token_is(TokenType::LeftBracket) {
            self.lexer.next_token();
            if self.peek_token_is(TokenType::RightBracket) {
                self.lexer.next_token();
                true
            } else {
                false
            }
        } else {
            false
        }
    }

    /// The type a token names. Primitive names (`int`, `bool`, `string`, `float`) may be
    /// followed by `[]` for an array type; `void` is the empty type; `func<params><ret>` is a
    /// function type; other names are array types when `[]` follows, or user types when they
    /// were defined; `var` means the type is inferred.
    pub fn parse_type(&mut self, token: Token) -> (r: Option<Types>)
        requires
            old(self).wf(),
        ensures
            Parser::moved_on(old(self), final(self)),
            final(self).defined_types == old(self).defined_types,
            token.token == TokenType::VariableDeclaration ==> r == Some(Types::Auto),
            (token.token != TokenType::VariableDeclaration && token.token != TokenType::Identifier) ==> r is None,
            (token.token == TokenType::Identifier && token.literal@ == "void"@) ==> r == Some(Types::Void),
            (token.token == TokenType::Identifier && primitive_named(token.literal@) is Some) ==> r == Some(
                if array_marker_follows(old(self).lexer) {
                    Types::Array(Box::new(Types::Basic(primitive_named(token.literal@)->0)))
                } else {
                    Types::Basic(primitive_named(token.literal@)->0)
                }),
            (token.token == TokenType::Identifier && primitive_named(token.literal@) is Some
                && old(self).lexer.peek().token != TokenType::LeftBracket) ==> final(self).lexer == old(self).lexer,
            (token.token != TokenType::Identifier || (token.literal@ != "func"@
                && old(self).lexer.peek().token != TokenType::LeftBracket)) ==> *final(self) == *old(self),
            (token.token == TokenType::Identifier && token.literal@ != "func"@ && token.literal@ != "void"@
                && array_marker_follows(old(self).lexer)) ==> final(self).lexer.pos == old(self).lexer.pos + 2,
            (token.token == TokenType::Identifier && primitive_named(token.literal@) is None && token.literal@ != "void"@
                && token.literal@ != "func"@) ==> r == (
                if array_marker_follows(old(self).lexer) {
                    Some(Types::Array(Box::new(Types::Basic(BaseTypes::UserDefined(token.literal)))))
                } else if exists|i: int| 0 <= i < old(self).defined_types@.len() && (#[trigger] old(self).defined_types@[i])@ == token.literal@ {
                    Some(Types::Basic(BaseTypes::UserDefined(token.literal)))
                } else {
                    None
                }),
        decreases old(self).fuel,
    {
        proof { reveal_strlit("void"); reveal_strlit("int"); reveal_strlit("bool"); reveal_strlit("string");
            reveal_strlit("float"); reveal_strlit("func"); }
        match token.token {
            TokenType::Identifier => {
                let lit = token.literal.as_str();
                if str_eq(lit, "void") {
                    assert("void"@ != "bool"@) by {
                        assert("void"@[0] != "bool"@[0]);
                    }
                    assert(primitive_named(token.literal@) is None);
                    Some(Types::Void)
                } else if let Some(base) = primitive_base(lit) {
                    if self.peek_is_array() {
                        Some(Types::Array(Box::new(Types::Basic(base))))
                    } else {
                        Some(Types::Basic(base))
                    }
                } else if str_eq(lit, "func") {
                    assert("func"@ != "bool"@) by {
                        assert("func"@[0] != "bool"@[0]);
                    }
                    assert(primitive_named(token.literal@) is None);
                    if !self.spend() {
                        return None;
                    }
                    let mut parameter_types: Vec<Types> = Vec::new();
                    // '<'
                    self.lexer.next_token();
                    self.lexer.next_token();
                    let mut skipped = false;
                    while !self.current_token_is(TokenType::RightArrow) && !self.current_token_is(TokenType::Eof)
                        invariant
                            Parser::moved_on(old(self), self),
                            self.fuel < old(self).fuel,
                            self.defined_types == old(self).defined_types,
                            token.token == TokenType::Identifier,
                            token.literal@ == "func"@,
                            token.literal@ != "void"@,
                            primitive_named(token.literal@) is None,
                        decreases self.lexer.tokens@.len() - self.lexer.pos,
                    {
                        let ghost before = self.lexer.pos;
                        let next = self.lexer.get_current_token().duplicate();
                        let tp = self.parse_type(next);
                        match tp {
                            Some(t) => parameter_types.push(t),
                            None => return None,
                        }
                        skipped = true;
                        self.lexer.next_token();
                        if self.lexer.get_current_token().token == TokenType::Comma {
                            self.lexer.next_token();
                        }
                        assert(self.lexer.pos > before);
                    }
                    // '>'
                    self.lexer.next_token();
                    // Return type '<'
                    if !skipped {
                        self.lexer.next_token();
                    }
                    self.lexer.next_token();
                    let cur = self.lexer.get_current_token().duplicate();
                    let return_type = match self.parse_type(cur) {
                        Some(t) => t,
                        None => return None,
                    };
                    // previous type & '>'
                    self.lexer.next_token();
                    self.lexer.next_token();
                    Some(Types::Function(FunctionType {
                        return_type: Box::new(return_type),
                        parameter_types,
                        reference: String::new(),
                        is_method: false,
                    }))
                } else {
                    if self.peek_is_array() {
                        Some(Types::Array(Box::new(Types::Basic(BaseTypes::UserDefined(token.literal)))))
                    } else if crate::text::contains_string(&self.defined_types, token.literal.as_str()) {
                        Some(Types::Basic(BaseTypes::UserDefined(token.literal)))
                    } else {
                        None
                    }
                }
            },
            TokenType::VariableDeclaration => Some(Types::Auto),
            _ => None,
        }
    }

    /// Parses the statement starting at `token` (the token under the cursor).
    pub fn parse_statement(&mut self, token: Token) -> (r: Result<Node, SyntaxException>)
        requires
            old(self).wf(),
            token == old(self).cur(),
        ensures
            Parser::moved_on(old(self), final(self)),
            r matches Ok(n) ==> match token.token {
                TokenType::ConstantDeclaration => n is Statement && n->Statement_0 is ConstantDeclaration,
                TokenType::Return => n is Statement && n->Statement_0 is Return,
                TokenType::Import => n is Statement && n->Statement_0 is Import,
                TokenType::Break => n is Statement && n->Statement_0 is Break,
                TokenType::Class => n is Statement && n->Statement_0 is Class,
                TokenType::Extends => n is Statement && n->Statement_0 is Extend,
                TokenType::Public => if ahead(old(self).lexer, 1).token == TokenType::Class {
                    n is Statement && n->Statement_0 is Class
                } else {
                    n is Expression && n->Expression_0 is Function
                },
                TokenType::Identifier => n is Statement && {
                    let next = old(self).lexer.peek().token;
                    if next == TokenType::Assign {
                        n->Statement_0 is VariableAssign
                    } else if next == TokenType::Colon || next == TokenType::Identifier || next == TokenType::LeftArrow {
                        n->Statement_0 is VariableDeclaration
                    } else {
                        n->Statement_0 is Expression
                    }
                },
                _ => n is Statement && n->Statement_0 is Expression,
            },
            old(self).fuel > 3 && single_token_operand(*old(self)) && operand_ends(*old(self), Precedence::Lowest)
                && old(self).lexer.peek().token != TokenType::Assign && old(self).lexer.peek().token != TokenType::Colon
                && old(self).lexer.peek().token != TokenType::Identifier && !starts_statement(token.token)
                ==> (r matches Ok(n) && n is Statement && n->Statement_0 is Expression
                    && leaf_expression(*old(self), *n->Statement_0->Expression_0.expression))
                    && (old(self).lexer.peek().token != TokenType::Semicolon ==> final(self).lexer == old(self).lexer)
                    && final(self).fuel + 4 >= old(self).fuel,
        decreases old(self).fuel,
    {
        if !self.spend() {
            return Err(out_of_fuel());
        }
        let r = match token.token {
            TokenType::ConstantDeclaration => parse_constant_declaration(self),
            TokenType::Identifier => {
                if self.peek_token_is(TokenType::Assign) {
                    parse_variable_assignment(self)
                } else if self.peek_token_is(TokenType::Colon) {
                    parse_variable_declaration(self, None)
                } else if self.peek_token_is(TokenType::Identifier) {
                    // The variable is explicitly typed.
                    let cur = self.lexer.get_current_token().duplicate();
                    match self.parse_type(cur) {
                        Some(types) => {
                            self.lexer.next_token();
                            parse_variable_declaration(self, Some(types))
                        },
                        None => Err(SyntaxException::Unknown),
                    }
                } else if self.peek_token_is(TokenType::LeftArrow) {
                    let cur = self.lexer.get_current_token().duplicate();
                    match self.parse_type(cur) {
                        Some(types) => parse_variable_declaration(self, Some(types)),
                        None => Err(SyntaxException::Unknown),
                    }
                } else {
                    crate::parser::statement::parse_expression_statement(self)
                }
            },
            TokenType::Return => parse_return_statement(self),
            TokenType::Import => parse_import_statement(self),
            TokenType::Break => parse_break_statement(self),
            TokenType::Class => parse_class_statement(self),
            TokenType::Extends => parse_extend_statement(self),
            TokenType::Public => {
                self.next_public = true;
                self.lexer.next_token();
                match self.lexer.get_current_token().token {
                    TokenType::Function => parse_function(self),
                    TokenType::Class => {
                        self.lexer.next_token();
                        parse_class_statement(self)
                    },
                    _ => Err(SyntaxException::Unknown),
                }
            },
            _ => self.parse_expression_statement(),
        };
        if self.lexer.get_peek_token().token == TokenType::Semicolon {
            self.lexer.next_token();
        }
        r
    }

    /// Parses an expression used as a statement.
    pub fn parse_expression_statement(&mut self) -> (r: Result<Node, SyntaxException>)
        requires
            old(self).wf(),
        ensures
            Parser::moved_on(old(self), final(self)),
            r matches Ok(n) ==> n is Statement && n->Statement_0 is Expression,
            old(self).fuel > 2 && single_token_operand(*old(self)) && operand_ends(*old(self), Precedence::Lowest)
                ==> (r matches Ok(n) && n is Statement && n->Statement_0 is Expression
                    && leaf_expression(*old(self), *n->Statement_0->Expression_0.expression))
                    && final(self).lexer == old(self).lexer && final(self).fuel + 3 == old(self).fuel,
        decreases old(self).fuel,
    {
        if !self.spend() {
            return Err(out_of_fuel());
        }
        crate::parser::statement::parse_expression_statement(self)
    }

    /// Parses an expression whose operators bind more strongly than `precedence`: the prefix
    /// parser of the current token, then infix parsers while the next operator binds more
    /// strongly and no ';' comes.
    pub fn parse_expression(&mut self, precedence: Precedence) -> (r: Result<Node, SyntaxException>)
        requires
            old(self).wf(),
        ensures
            Parser::moved_on(old(self), final(self)),
            old(self).fuel > 0 && spec_lookup(old(self).prefix_parser@, old(self).cur().token) is None
                ==> r == Err::<Node, SyntaxException>(SyntaxException::NoPrefixParser(old(self).cur().token))
                    && final(self).lexer == old(self).lexer,
            old(self).fuel > 0 && single_token_operand(*old(self)) && operand_ends(*old(self), precedence)
                ==> (r matches Ok(n) && n is Expression && leaf_expression(*old(self), n->Expression_0))
                    && final(self).lexer == old(self).lexer && final(self).fuel + 1 == old(self).fuel
                    && final(self).defined_types == old(self).defined_types,
            old(self).fuel > 2 && binary_follows(*old(self), precedence) ==> ({
                let q = stepped_parser(stepped_parser(*old(self)));
                &&& r matches Ok(n) && n is Expression && n->Expression_0 is Suffix
                    && leaf_expression(*old(self), n->Expression_0->Suffix_0.left)
                    && n->Expression_0->Suffix_0.operator == old(self).lexer.peek().literal
                    && leaf_expression(q, n->Expression_0->Suffix_0.right)
                &&& final(self).lexer == q.lexer
            }),
            old(self).fuel > 0 && negative_number_follows(*old(self), precedence) ==> (r matches Ok(n) && n is Expression
                && negative_value(old(self).lexer.peek().literal@, n->Expression_0))
                && final(self).lexer.pos == old(self).lexer.pos + 1,
        decreases old(self).fuel,
    {
        let ghost start = *old(self);
        let ghost leaf_case = single_token_operand(*old(self)) && operand_ends(*old(self), precedence);
        let ghost bin = old(self).fuel > 2 && binary_follows(*old(self), precedence);
        let ghost q = stepped_parser(stepped_parser(*old(self)));
        let ghost neg = old(self).fuel > 0 && negative_number_follows(*old(self), precedence);
        proof {
            if neg {
                assert(start.lexer.tokens@.len() == start.lexer.tokens.len());
            }
        }
        if !self.spend() {
            return Err(out_of_fuel());
        }
        let ghost fuel_in = self.fuel;
        let cur_kind = self.lexer.get_current_token().token;
        let prefix = lookup_prefix(&self.prefix_parser, cur_kind);
        let prefix = match prefix {
            None => {
                return Err(SyntaxException::NoPrefixParser(cur_kind));
            },
            Some(f) => f,
        };
        let expression_node = match prefix {
            PrefixParser::NumberLiteral => parse_number_literal(self),
            PrefixParser::NegativeNumber => parse_negative_number(self),
            PrefixParser::Grouped => parse_grouped_expression(self),
            PrefixParser::Identifier => parse_identifier(self),
            PrefixParser::Boolean => parse_boolean(self),
            PrefixParser::InvertedBoolean => parse_inverted_boolean(self),
            PrefixParser::Function => parse_function(self),
            PrefixParser::Conditional => parse_conditional(self),
            PrefixParser::Null => parse_expression_null(self),
            PrefixParser::StringLiteral => parse_string_literal(self),
            PrefixParser::Array => parse_expression_array(self),
            PrefixParser::Loop => parse_loop(self),
            PrefixParser::Hashmap => parse_expression_hashmap(self),
        }?;
        match expression_node {
            Node::Expression(exp) => {
                let mut infix_expression_node: Option<Node> = None;
                while !self.peek_token_is(TokenType::Semicolon)
                    && precedence.rank() < self.peek_precedence().rank()
                    invariant
                        Parser::moved_on(old(self), self),
                        self.fuel < old(self).fuel,
                        spec_lookup(old(self).prefix_parser@, old(self).cur().token) is Some,
                        start == *old(self),
                        leaf_case == (single_token_operand(start) && operand_ends(start, precedence)),
                        leaf_case ==> infix_expression_node is None && self.lexer == old(self).lexer
                            && leaf_expression(start, exp) && self.fuel + 1 == old(self).fuel
                            && self.defined_types == old(self).defined_types,
                        bin == (old(self).fuel > 2 && binary_follows(start, precedence)),
                        q == stepped_parser(stepped_parser(start)),
                        bin ==> leaf_expression(start, exp),
                        neg == (old(self).fuel > 0 && negative_number_follows(start, precedence)),
                        neg ==> infix_expression_node is None && negative_value(start.lexer.peek().literal@, exp)
                            && self.lexer.pos == start.lexer.pos + 1 && self.lexer.tokens == start.lexer.tokens,
                        bin ==> ({
                            ||| (infix_expression_node is None && *self == Parser { fuel: (old(self).fuel - 1) as u64, ..start })
                            ||| (infix_expression_node matches Some(Node::Expression(e)) && e is Suffix
                                && leaf_expression(start, e->Suffix_0.left)
                                && e->Suffix_0.operator == start.lexer.peek().literal
                                && leaf_expression(q, e->Suffix_0.right)
                                && self.lexer == q.lexer)
                        }),
                    decreases self.lexer.tokens@.len() - self.lexer.pos,
                {
                    let ghost before = self.lexer.pos;
                    let peek_kind = self.lexer.get_peek_token().token;
                    let infix = lookup_infix(&self.infix_parser, peek_kind);
                    let infix = match infix {
                        None => {
                            return Ok(Node::Expression(exp));
                        },
                        Some(f) => f,
                    };
                    proof {
                        assert(peek_kind != TokenType::Eof);
                    }
                    self.lexer.next_token();
                    let prev = infix_expression_node;
                    infix_expression_node = None;
                    let left: Option<Expression> = match prev {
                        Some(Node::Expression(a)) => Some(a),
                        Some(Node::Statement(s)) => {
                            infix_expression_node = Some(Node::Statement(s));
                            None
                        },
                        None => Some(exp.duplicate()),
                    };
                    if let Some(a) = left {
                        let result = match infix {
                            InfixParser::Suffix => parse_suffix_expression(self, a),
                            InfixParser::Call => parse_call(self, a),
                            InfixParser::Index => parse_index_expression(self, a),
                        }?;
                        infix_expression_node = Some(result);
                    }
                }
                if let Some(infix) = infix_expression_node {
                    return Ok(infix);
                }
                Ok(Node::Expression(exp))
            },
            Node::Statement(_) => {
                let cur = self.lexer.get_current_token().duplicate();
                self.throw_exception(cur, None);
                Err(SyntaxException::CustomMessage(owned("Unknown parser exception occured"), None))
            },
        }
    }

    /// Registers the prefix parser for a token, replacing an earlier one.
    pub fn add_prefix_parser(&mut self, tok: TokenType, func: PrefixParser)
        ensures
            spec_lookup(final(self).prefix_parser@, tok) == Some(func),
            forall|t: TokenType| t != tok ==> spec_lookup(final(self).prefix_parser@, t) == spec_lookup(old(self).prefix_parser@, t),
            final(self).lexer == old(self).lexer,
            final(self).infix_parser == old(self).infix_parser,
            final(self).fuel == old(self).fuel,
            final(self).defined_types == old(self).defined_types,
            final(self).current_file == old(self).current_file,
            final(self).next_public == old(self).next_public,
            final(self).thrown == old(self).thrown,
            final(self).errors == old(self).errors,
    {
        self.prefix_parser.push((tok, func));
        proof {
            assert(final(self).prefix_parser@.drop_last() =~= old(self).prefix_parser@);
        }
    }

    /// Registers the infix parser for a token, replacing an earlier one.
    pub fn add_infix_parser(&mut self, tok: TokenType, func: InfixParser)
        ensures
            spec_lookup(final(self).infix_parser@, tok) == Some(func),
            forall|t: TokenType| t != tok ==> spec_lookup(final(self).infix_parser@, t) == spec_lookup(old(self).infix_parser@, t),
            final(self).lexer == old(self).lexer,
            final(self).prefix_parser == old(self).prefix_parser,
            final(self).fuel == old(self).fuel,
            final(self).defined_types == old(self).defined_types,
            final(self).current_file == old(self).current_file,
            final(self).next_public == old(self).next_public,
            final(self).thrown == old(self).thrown,
            final(self).errors == old(self).errors,
    {
        self.infix_parser.push((tok, func));
        proof {
            assert(final(self).infix_parser@.drop_last() =~= old(self).infix_parser@);
        }
    }

    pub fn peek_token_is(&self, tok: TokenType) -> (r: bool)
        requires
            self.wf(),
        ensures
            r == (self.lexer.peek().token == tok),
    {
        self.lexer.get_peek_token().token == tok
    }

    pub fn current_token_is(&self, tok: TokenType) -> (r: bool)
        requires
            self.wf(),
        ensures
            r == (self.cur().token == tok),
    {
        self.lexer.get_current_token().token == tok
    }

    /// `Ok` when the current token is of kind `tok`; otherwise an error that `tok` was expected.
    pub fn current_token_is_result(&self, tok: TokenType) -> (r: Result<(), SyntaxException>)
        requires
            self.wf(),
        ensures
            r is Ok == (self.cur().token == tok),
            r is Err ==> r == Err::<(), SyntaxException>(SyntaxException::ExpectedToken(tok)),
    {
        if self.lexer.get_current_token().token == tok {
            Ok(())
        } else {
            Err(SyntaxException::ExpectedToken(tok))
        }
    }

    pub fn next_token_is(&self, tok: TokenType) -> (r: bool)
        requires
            self.wf(),
        ensures
            r == (self.lexer.peek().token == tok),
    {
        self.lexer.get_peek_token().token == tok
    }

    /// Records a syntax error message.
    pub fn add_error(&mut self, error: String)
        ensures
            final(self).errors@ == old(self).errors@.push(Exception::Syntax(error)),
            final(self).lexer == old(self).lexer,
            final(self).fuel == old(self).fuel,
    {
        self.errors.push(Exception::Syntax(error));
    }

    pub fn peek_precedence(&self) -> (r: Precedence)
        requires
            self.wf(),
        ensures
            r == spec_precedence(self.lexer.peek().token),
    {
        get_precedence(self.lexer.get_peek_token().token)
    }

    pub fn current_precedence(&self) -> (r: Precedence)
        requires
            self.wf(),
        ensures
            r == spec_precedence(self.cur().token),
    {
        get_precedence(self.lexer.get_current_token().token)
    }

    /// Records the syntax error that ends parsing: the line before the current one, the
    /// expected token, the token found, and where it starts.
    pub fn throw_exception(&mut self, expected: Token, message: Option<String>)
        requires
            old(self).wf(),
        ensures
            final(self).wf(),
            final(self).lexer == old(self).lexer,
            final(self).fuel == old(self).fuel,
            final(self).defined_types == old(self).defined_types,
            final(self).prefix_parser == old(self).prefix_parser,
            final(self).infix_parser == old(self).infix_parser,
            final(self).thrown matches Some(e) && e.expected == expected && e.got == old(self).cur()
                && e.line == old(self).lexer.current_line && e.extra_message == message,
    {
        let got = self.lexer.get_current_token().duplicate();
        let len = got.literal_len();
        let error_line = self.lexer.get_line(self.lexer.current_line - 1);
        let e = SyntaxError {
            error_line,
            expected,
            got,
            line: self.lexer.current_line,
            column: self.lexer.current_col - len,
            extra_message: message,
        };
        self.thrown = Some(e);
    }
}

/// The tokens that start an expression.
pub open spec fn prefix_token(t: TokenType) -> bool {
    t == TokenType::Integer || t == TokenType::Float || t == TokenType::Minus || t == TokenType::LeftParenthesis
        || t == TokenType::Identifier || t == TokenType::True || t == TokenType::False || t == TokenType::InvertSign
        || t == TokenType::Function || t == TokenType::If || t == TokenType::Null || t == TokenType::String
        || t == TokenType::LeftBracket || t == TokenType::For || t == TokenType::LeftBrace
}

/// The tokens that continue an expression after an operand.
pub open spec fn infix_token(t: TokenType) -> bool {
    t == TokenType::Plus || t == TokenType::Power || t == TokenType::Multiply || t == TokenType::Divide
        || t == TokenType::Minus || t == TokenType::Modulo || t == TokenType::LeftParenthesis || t == TokenType::Dot
        || t == TokenType::LeftBracket || t == TokenType::And || t == TokenType::Or || t == TokenType::Equals
        || t == TokenType::RightArrow || t == TokenType::GreaterThanOrEquals || t == TokenType::LeftArrow
        || t == TokenType::LessThanOrEquals || t == TokenType::NotEquals
}

/// A parser over the given tokens, with the prefix and infix parsers of Loop registered.
pub fn build_parser(lexer: Lexer, file: &str) -> (r: Parser)
    requires
        lexer.wf(),
    ensures
        r.wf(),
        r.lexer == lexer,
        r.fuel == u64::MAX,
        r.current_file@ == file@,
        r.defined_types@.len() == 0,
        r.next_public == false,
        r.thrown is None,
        spec_lookup(r.prefix_parser@, TokenType::Integer) == Some(PrefixParser::NumberLiteral),
        spec_lookup(r.prefix_parser@, TokenType::Float) == Some(PrefixParser::NumberLiteral),
        spec_lookup(r.prefix_parser@, TokenType::Minus) == Some(PrefixParser::NegativeNumber),
        spec_lookup(r.prefix_parser@, TokenType::LeftParenthesis) == Some(PrefixParser::Grouped),
        spec_lookup(r.prefix_parser@, TokenType::Identifier) == Some(PrefixParser::Identifier),
        spec_lookup(r.prefix_parser@, TokenType::True) == Some(PrefixParser::Boolean),
        spec_lookup(r.prefix_parser@, TokenType::False) == Some(PrefixParser::Boolean),
        spec_lookup(r.prefix_parser@, TokenType::InvertSign) == Some(PrefixParser::InvertedBoolean),
        spec_lookup(r.prefix_parser@, TokenType::Function) == Some(PrefixParser::Function),
        spec_lookup(r.prefix_parser@, TokenType::If) == Some(PrefixParser::Conditional),
        spec_lookup(r.prefix_parser@, TokenType::Null) == Some(PrefixParser::Null),
        spec_lookup(r.prefix_parser@, TokenType::String) == Some(PrefixParser::StringLiteral),
        spec_lookup(r.prefix_parser@, TokenType::LeftBracket) == Some(PrefixParser::Array),
        spec_lookup(r.prefix_parser@, TokenType::For) == Some(PrefixParser::Loop),
        spec_lookup(r.prefix_parser@, TokenType::LeftBrace) == Some(PrefixParser::Hashmap),
        spec_lookup(r.prefix_parser@, TokenType::Eof) is None,
        spec_lookup(r.infix_parser@, TokenType::Plus) == Some(InfixParser::Suffix),
        spec_lookup(r.infix_parser@, TokenType::Power) == Some(InfixParser::Suffix),
        spec_lookup(r.infix_parser@, TokenType::Multiply) == Some(InfixParser::Suffix),
        spec_lookup(r.infix_parser@, TokenType::Divide) == Some(InfixParser::Suffix),
        spec_lookup(r.infix_parser@, TokenType::Minus) == Some(InfixParser::Suffix),
        spec_lookup(r.infix_parser@, TokenType::Modulo) == Some(InfixParser::Suffix),
        spec_lookup(r.infix_parser@, TokenType::LeftParenthesis) == Some(InfixParser::Call),
        spec_lookup(r.infix_parser@, TokenType::Dot) == Some(InfixParser::Index),
        spec_lookup(r.infix_parser@, TokenType::LeftBracket) == Some(InfixParser::Index),
        spec_lookup(r.infix_parser@, TokenType::And) == Some(InfixParser::Suffix),
        spec_lookup(r.infix_parser@, TokenType::Or) == Some(InfixParser::Suffix),
        spec_lookup(r.infix_parser@, TokenType::Equals) == Some(InfixParser::Suffix),
        spec_lookup(r.infix_parser@, TokenType::RightArrow) == Some(InfixParser::Suffix),
        spec_lookup(r.infix_parser@, TokenType::GreaterThanOrEquals) == Some(InfixParser::Suffix),
        spec_lookup(r.infix_parser@, TokenType::LeftArrow) == Some(InfixParser::Suffix),
        spec_lookup(r.infix_parser@, TokenType::LessThanOrEquals) == Some(InfixParser::Suffix),
        spec_lookup(r.infix_parser@, TokenType::NotEquals) == Some(InfixParser::Suffix),
        forall|t: TokenType| #[trigger] spec_lookup(r.prefix_parser@, t) is Some ==> prefix_token(t),
        forall|t: TokenType| #[trigger] spec_lookup(r.infix_parser@, t) is Some ==> infix_token(t),
        r.errors@.len() == 0,
{
    let mut p = Parser {
        lexer,
        prefix_parser: Vec::new(),
        infix_parser: Vec::new(),
        errors: Vec::new(),
        defined_types: Vec::new(),
        next_public: false,
        current_file: owned(file),
        thrown: None,
        fuel: u64::MAX,
    };
    // Prefix parsers
    p.add_prefix_parser(TokenType::Integer, PrefixParser::NumberLiteral);
    p.add_prefix_parser(TokenType::Float, PrefixParser::NumberLiteral);
    p.add_prefix_parser(TokenType::Minus, PrefixParser::NegativeNumber);
    p.add_prefix_parser(TokenType::LeftParenthesis, PrefixParser::Grouped);
    p.add_prefix_parser(TokenType::Identifier, PrefixParser::Identifier);
    p.add_prefix_parser(TokenType::True, PrefixParser::Boolean);
    p.add_prefix_parser(TokenType::False, PrefixParser::Boolean);
    p.add_prefix_parser(TokenType::InvertSign, PrefixParser::InvertedBoolean);
    p.add_prefix_parser(TokenType::Function, PrefixParser::Function);
    p.add_prefix_parser(TokenType::If, PrefixParser::Conditional);
    p.add_prefix_parser(TokenType::Null, PrefixParser::Null);
    p.add_prefix_parser(TokenType::String, PrefixParser::StringLiteral);
    p.add_prefix_parser(TokenType::LeftBracket, PrefixParser::Array);
    p.add_prefix_parser(TokenType::For, PrefixParser::Loop);
    p.add_prefix_parser(TokenType::LeftBrace, PrefixParser::Hashmap);
    // Infix parsers
    p.add_infix_parser(TokenType::Plus, InfixParser::Suffix);
    p.add_infix_parser(TokenType::Power, InfixParser::Suffix);
    p.add_infix_parser(TokenType::Multiply, InfixParser::Suffix);
    p.add_infix_parser(TokenType::Divide, InfixParser::Suffix);
    p.add_infix_parser(TokenType::Minus, InfixParser::Suffix);
    p.add_infix_parser(TokenType::Modulo, InfixParser::Suffix);
    p.add_infix_parser(TokenType::LeftParenthesis, InfixParser::Call);
    p.add_infix_parser(TokenType::Dot, InfixParser::Index);
    p.add_infix_parser(TokenType::LeftBracket, InfixParser::Index);
    p.add_infix_parser(TokenType::And, InfixParser::Suffix);
    p.add_infix_parser(TokenType::Or, InfixParser::Suffix);
    // Comparisons
    p.add_infix_parser(TokenType::Equals, InfixParser::Suffix);
    p.add_infix_parser(TokenType::RightArrow, InfixParser::Suffix);
    p.add_infix_parser(TokenType::GreaterThanOrEquals, InfixParser::Suffix);
    p.add_infix_parser(TokenType::LeftArrow, InfixParser::Suffix);
    p.add_infix_parser(TokenType::LessThanOrEquals, InfixParser::Suffix);
    p.add_infix_parser(TokenType::NotEquals, InfixParser::Suffix);
    p
}

} // verus!
