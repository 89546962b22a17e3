use picasso::lexer::build_lexer;
use picasso::parser::build_parser;
use picasso::parser::expression::{parse_conditional, parse_function, parse_loop, Expression, Precedence};
use picasso::parser::statement::{parse_import_statement, parse_export_statement, parse_constant_declaration};
use picasso::parser::program::Node;
use picasso::parser::statement::Statement;

fn parser_for(source: &str) -> picasso::parser::Parser {
    build_parser(build_lexer(source), "main.loop")
}

#[test]
fn conditional_with_one_statement() {
    let mut p = parser_for("if x { 1 }");
    let r = parse_conditional(&mut p);
    let c = match r {
        Ok(Node::Expression(Expression::Conditional(c))) => c,
        _ => panic!("expected a conditional"),
    };
    match *c.condition {
        Expression::Identifier(ref id) => {
            assert_eq!(id.value, "x");
        }
        _ => panic!("expected the identifier x"),
    }
    assert_eq!(c.body.statements.len(), 1);
    match &c.body.statements[0] {
        Statement::Expression(e) => assert!(matches!(*e.expression, Expression::Integer(ref i) if i.value == 1)),
        _ => panic!("expected an expression statement"),
    }
    assert!(c.else_condition.is_none());
}

#[test]
fn conditional_with_else_block() {
    let mut p = parser_for("if true { 1 } else { 2 }");
    let r = parse_conditional(&mut p);
    let c = match r {
        Ok(Node::Expression(Expression::Conditional(c))) => c,
        _ => panic!("expected a conditional"),
    };
    assert!(matches!(*c.condition, Expression::Boolean(ref b) if b.value));
    match c.else_condition {
        Some(node) => assert!(matches!(*node, Node::Statement(Statement::Block(ref b)) if b.statements.len() == 1)),
        None => panic!("expected an else part"),
    }
}

#[test]
fn binary_expression_reads_both_operands() {
    let mut p = parser_for("a + 2");
    let r = p.parse_expression(Precedence::Lowest);
    match r {
        Ok(Node::Expression(Expression::Suffix(s))) => {
            assert!(matches!(s.left, Expression::Identifier(ref id) if id.value == "a"));
            assert_eq!(s.operator, "+");
            assert!(matches!(s.right, Expression::Integer(ref i) if i.value == 2));
        }
        _ => panic!("expected a binary expression"),
    }
}

#[test]
fn empty_program_has_no_statements() {
    let mut p = parser_for("");
    let program = p.parse().ok().expect("an empty program parses");
    assert_eq!(program.statements.len(), 0);
}

#[test]
fn single_operand_program() {
    let mut p = parser_for("count");
    let program = p.parse().ok().expect("a name parses");
    assert_eq!(program.statements.len(), 1);
    match &program.statements[0] {
        Statement::Expression(e) => assert!(matches!(*e.expression, Expression::Identifier(ref id) if id.value == "count")),
        _ => panic!("expected an expression statement"),
    }
}

#[test]
fn element_read_is_an_index() {
    let mut p = parser_for("values[2]");
    match p.parse_expression(Precedence::Lowest) {
        Ok(Node::Expression(Expression::Index(b))) => {
            assert!(matches!(b.left, Expression::Identifier(ref id) if id.value == "values"));
            assert!(matches!(b.index, Expression::Integer(ref i) if i.value == 2));
        }
        _ => panic!("expected an index expression"),
    }
}

#[test]
fn import_names_file_and_binding() {
    let mut p = parser_for("import \"lib.loop\" as lib");
    match parse_import_statement(&mut p) {
        Ok(Node::Statement(Statement::Import(i))) => {
            assert_eq!(i.file, "lib.loop");
            assert_eq!(i.identifier, "lib");
        }
        _ => panic!("expected an import"),
    }
    let mut q = parser_for("import lib");
    assert!(parse_import_statement(&mut q).is_err());
}

#[test]
fn export_lists_names() {
    let mut p = parser_for("export { a , b }");
    match parse_export_statement(&mut p) {
        Some(Node::Statement(Statement::Export(e))) => assert_eq!(e.names, vec!["a".to_string(), "b".to_string()]),
        _ => panic!("expected an export"),
    }
}

#[test]
fn call_with_one_argument() {
    let mut p = parser_for("f(7)");
    match p.parse_expression(Precedence::Lowest) {
        Ok(Node::Expression(Expression::Call(c))) => {
            assert!(matches!(*c.identifier, Expression::Identifier(ref id) if id.value == "f"));
            assert_eq!(c.parameters.len(), 1);
            assert!(matches!(c.parameters[0], Expression::Integer(ref i) if i.value == 7));
        }
        _ => panic!("expected a call"),
    }
}

#[test]
fn empty_anonymous_function() {
    let mut p = parser_for("fn ( ) { }");
    match parse_function(&mut p) {
        Ok(Node::Expression(Expression::Function(f))) => {
            assert_eq!(f.name, "");
            assert_eq!(f.parameters.len(), 0);
            assert_eq!(f.body.statements.len(), 0);
        }
        _ => panic!("expected a function"),
    }
}

#[test]
fn constant_declaration_with_literal() {
    let mut p = parser_for("const limit := 10");
    match parse_constant_declaration(&mut p) {
        Ok(Node::Statement(Statement::ConstantDeclaration(c))) => {
            assert_eq!(c.ident.value, "limit");
            assert!(matches!(*c.value, Expression::Integer(ref i) if i.value == 10));
        }
        _ => panic!("expected a constant declaration"),
    }
}

#[test]
fn loop_with_empty_body() {
    let mut p = parser_for("for running { }");
    match parse_loop(&mut p) {
        Ok(Node::Expression(Expression::Loop(l))) => {
            assert!(matches!(*l.condition, Expression::Identifier(ref id) if id.value == "running"));
            assert_eq!(l.body.statements.len(), 0);
        }
        _ => panic!("expected a loop"),
    }
}

#[test]
fn typed_declaration_with_equals_sign() {
    let mut p = parser_for("int i = 13 + 4");
    let program = p.parse().ok().expect("the declaration parses");
    assert_eq!(program.statements.len(), 1);
    match &program.statements[0] {
        Statement::VariableDeclaration(d) => {
            assert_eq!(d.ident.value, "i");
            assert!(matches!(d.data_type, picasso::types::Types::Basic(picasso::types::BaseTypes::Integer)));
            match &*d.value {
                Expression::Suffix(s) => {
                    assert!(matches!(s.left, Expression::Integer(ref i) if i.value == 13));
                    assert_eq!(s.operator, "+");
                    assert!(matches!(s.right, Expression::Integer(ref i) if i.value == 4));
                }
                _ => panic!("expected 13 + 4"),
            }
        }
        _ => panic!("expected a declaration"),
    }
}

#[test]
fn slice_reads_begin_and_end() {
    let mut p = parser_for("s[1..3]");
    match p.parse_expression(Precedence::Lowest) {
        Ok(Node::Expression(Expression::Slice(sl))) => {
            assert!(matches!(*sl.left, Expression::Identifier(ref id) if id.value == "s"));
            assert!(matches!(*sl.begin, Expression::Integer(ref i) if i.value == 1));
            assert!(matches!(*sl.end, Expression::Integer(ref i) if i.value == 3));
        }
        _ => panic!("expected a slice"),
    }
}

#[test]
fn loop_body_is_kept() {
    let mut p = parser_for("for running { 5 }");
    match parse_loop(&mut p) {
        Ok(Node::Expression(Expression::Loop(l))) => {
            assert_eq!(l.body.statements.len(), 1);
            match &l.body.statements[0] {
                Statement::Expression(e) => assert!(matches!(*e.expression, Expression::Integer(ref i) if i.value == 5)),
                _ => panic!("expected an expression"),
            }
        }
        _ => panic!("expected a loop"),
    }
}

#[test]
fn counting_loop_parses_bounds_and_body() {
    let mut p = parser_for("for var i = 2 to 9 { 1 }");
    match parse_loop(&mut p) {
        Ok(Node::Expression(Expression::LoopIterator(l))) => {
            assert_eq!(l.identifier.value, "i");
            assert_eq!(l.from, 2);
            assert_eq!(l.till, 9);
            assert_eq!(l.body.statements.len(), 1);
        }
        _ => panic!("expected a counting loop"),
    }
}

#[test]
fn array_type_moves_over_its_brackets() {
    let mut p = parser_for("int[] x");
    let start = p.lexer.pos;
    let token = p.lexer.get_current_token().duplicate();
    match p.parse_type(token) {
        Some(picasso::types::Types::Array(inner)) => {
            assert!(matches!(*inner, picasso::types::Types::Basic(picasso::types::BaseTypes::Integer)))
        }
        _ => panic!("expected an integer array type"),
    }
    assert_eq!(p.lexer.pos, start + 2);
}

fn custom_message(r: Result<Node, picasso::exception::SyntaxException>) -> String {
    match r {
        Err(picasso::exception::SyntaxException::CustomMessage(m, Some(_))) => m,
        _ => panic!("expected a syntax error with a message"),
    }
}

#[test]
fn loop_with_unclosed_parenthesis_fails() {
    let mut p = parser_for("for (i < 3 { println(i) }");
    assert_eq!(custom_message(parse_loop(&mut p)), "expected: RightParenthesis");
    let mut p = parser_for("for (x { }");
    assert_eq!(custom_message(parse_loop(&mut p)), "expected: RightParenthesis");
}

#[test]
fn loop_with_unopened_parenthesis_fails() {
    let mut p = parser_for("for x) { }");
    assert_eq!(custom_message(parse_loop(&mut p)), "expected: NoParenthesis");
}

#[test]
fn public_flag_belongs_to_the_outer_function() {
    let mut p = parser_for("fn() { fn() { 1 } }");
    p.next_public = true;
    match parse_function(&mut p) {
        Ok(Node::Expression(Expression::Function(f))) => {
            assert!(f.public);
            match &f.body.statements[0] {
                Statement::Expression(e) => match &*e.expression {
                    Expression::Function(inner) => assert!(!inner.public),
                    _ => panic!("expected the inner function"),
                },
                _ => panic!("expected an expression statement"),
            }
        }
        _ => panic!("expected a function"),
    }
    assert!(!p.next_public);
}

#[test]
fn class_members_are_numbered_in_order() {
    let mut p = parser_for("class P { a = 1\nb = 2 }");
    p.next_public = true;
    match picasso::parser::statement::parse_class_statement(&mut p) {
        Ok(Node::Statement(Statement::Class(c))) => {
            assert_eq!(c.name, "P");
            assert!(c.public);
            assert_eq!(c.values.len(), 2);
            assert_eq!(c.values[0].index, 0);
            assert_eq!(c.values[1].index, 1);
        }
        _ => panic!("expected a class"),
    }
}

#[test]
fn constant_with_a_binary_value() {
    let mut p = parser_for("const i := 13 + 4");
    match parse_constant_declaration(&mut p) {
        Ok(Node::Statement(Statement::ConstantDeclaration(d))) => {
            assert_eq!(d.ident.value, "i");
            match *d.value {
                Expression::Suffix(ref s) => {
                    assert!(matches!(s.left, Expression::Integer(ref i) if i.value == 13));
                    assert_eq!(s.operator, "+");
                    assert!(matches!(s.right, Expression::Integer(ref i) if i.value == 4));
                }
                _ => panic!("expected a binary value"),
            }
        }
        _ => panic!("expected a constant declaration"),
    }
}

#[test]
fn array_literal_of_three_numbers() {
    let mut p = parser_for("[1, 2, 3]");
    match picasso::parser::expression::parse_expression_array(&mut p) {
        Ok(Node::Expression(Expression::Array(a))) => {
            assert_eq!(a.values.len(), 3);
            for (k, v) in a.values.iter().enumerate() {
                assert!(matches!(*v.expression, Expression::Integer(ref i) if i.value == (k as i64) + 1));
            }
        }
        _ => panic!("expected an array"),
    }
}

#[test]
fn two_parameters() {
    let mut p = parser_for("(int a, string b)");
    match picasso::parser::expression::parse_arguments(&mut p) {
        Ok(v) => {
            assert_eq!(v.len(), 2);
            assert_eq!(v[0].identifier.value, "a");
            assert!(matches!(v[0]._type, picasso::types::Types::Basic(picasso::types::BaseTypes::Integer)));
            assert_eq!(v[1].identifier.value, "b");
            assert!(matches!(v[1]._type, picasso::types::Types::Basic(picasso::types::BaseTypes::String)));
        }
        Err(_) => panic!("expected the parameters"),
    }
}

#[test]
fn else_block_with_one_value() {
    let mut p = parser_for("else { 2 }");
    match picasso::parser::expression::parse_else(&mut p) {
        Ok(Some(n)) => match *n {
            Node::Statement(Statement::Block(b)) => {
                assert_eq!(b.statements.len(), 1);
                match &b.statements[0] {
                    Statement::Expression(e) => assert!(matches!(*e.expression, Expression::Integer(ref i) if i.value == 2)),
                    _ => panic!("expected an expression statement"),
                }
            }
            _ => panic!("expected a block"),
        },
        _ => panic!("expected an else part"),
    }
}

#[test]
fn conditional_with_one_value_in_each_branch() {
    let mut p = parser_for("if x { 1 } else { 2 }");
    match parse_conditional(&mut p) {
        Ok(Node::Expression(Expression::Conditional(c))) => {
            assert!(matches!(*c.condition, Expression::Identifier(ref i) if i.value == "x"));
            assert_eq!(c.body.statements.len(), 1);
            match c.else_condition {
                Some(n) => match *n {
                    Node::Statement(Statement::Block(b)) => {
                        assert_eq!(b.statements.len(), 1);
                        match &b.statements[0] {
                            Statement::Expression(e) => assert!(matches!(*e.expression, Expression::Integer(ref i) if i.value == 2)),
                            _ => panic!("expected an expression statement"),
                        }
                    }
                    _ => panic!("expected an else block"),
                },
                None => panic!("expected an else part"),
            }
        }
        _ => panic!("expected a conditional"),
    }
}

#[test]
fn negative_number_leaves_the_cursor_on_the_number() {
    let mut p = parser_for("-5");
    let start = p.lexer.pos;
    match p.parse_expression(Precedence::Lowest) {
        Ok(Node::Expression(Expression::Integer(i))) => assert_eq!(i.value, -5),
        _ => panic!("expected a negative integer"),
    }
    assert_eq!(p.lexer.pos, start + 1);
}
