use picasso::compiler::compile::compile_loop_array_iterator_expression;
use picasso::parser::expression::LoopArrayIterator;
use picasso::compiler::compile::compile_loop_iterator_expression;
use picasso::parser::expression::LoopIterator;
use picasso::parser::statement::{Block, Statement};
use picasso::compiler::compile::compile_expression_index;
use picasso::parser::expression::Index;
use picasso::types::{BaseTypes, ClassItemType, Compound, Types};
use picasso::compiler::compile::{compile_class_statement, compile_expression_call};
use picasso::parser::expression::Call;
use picasso::parser::statement::{Class, ClassField, ClassItem};
use picasso::compiler::compile::{compile_expression_integer, compile_expression_string, compile_break_statement,
    compile_extend_statement, compile_return_statement, compile_expression_identifier};
use picasso::compiler::Compiler;
use picasso::exception::CompilerExceptionCode;
use picasso::parser::expression::{Expression, Identifier, Integer, LoopString};
use picasso::parser::statement::{BreakStatement, ExtendStatement, ReturnStatement};
use picasso::{compile, compile_with_state, CompileFailure};

fn arc_of(source: &str) -> String {
    match compile(source, None, Vec::new()) {
        Ok((arc, _)) => arc,
        Err(_) => panic!("compilation failed"),
    }
}

#[test]
fn declaration_stores_value() {
    assert_eq!(arc_of("x := 5"), ".STORE 0 {.CONSTANT INT 5;};");
}

#[test]
fn declared_variable_is_loaded() {
    assert_eq!(arc_of("x := 5\nx"), ".STORE 0 {.CONSTANT INT 5;};.LOAD VARIABLE 0;");
}

#[test]
fn addition_compiles_to_add() {
    assert_eq!(arc_of("1 + 2"), ".ADD {.CONSTANT INT 1;.CONSTANT INT 2;};");
}

#[test]
fn less_than_swaps_operands() {
    assert_eq!(arc_of("3 < 4"), ".GREATERTHAN {.CONSTANT INT 4;.CONSTANT INT 3;};");
}

#[test]
fn literals_compile_to_constants() {
    assert_eq!(arc_of("true"), ".CONSTANT BOOL true;");
    assert_eq!(arc_of("\"hi\""), ".CONSTANT CHAR[] \"hi\";");
}

#[test]
fn return_outside_function_fails() {
    match compile("return 5", None, Vec::new()) {
        Err(CompileFailure::Compiler { exception, .. }) => {
            assert!(matches!(exception.exception, CompilerExceptionCode::ReturnStatementNotAllowedOutsideFunction));
        }
        _ => panic!("expected a compiler error"),
    }
}

#[test]
fn unknown_name_fails() {
    match compile("y", None, Vec::new()) {
        Err(CompileFailure::Compiler { exception, .. }) => match exception.exception {
            CompilerExceptionCode::UnknownSymbol(s) => {
                assert_eq!(s.name, "y");
                assert_eq!(s.scope_depth, 0);
            }
            _ => panic!("expected an unknown symbol"),
        },
        _ => panic!("expected a compiler error"),
    }
}

#[test]
fn state_carries_variables_over() {
    let (_, state) = match compile("x := 5", None, Vec::new()) {
        Ok(r) => r,
        Err(_) => panic!("compilation failed"),
    };
    assert_eq!(state.variable_count, 1);
    match compile_with_state("x", state, Vec::new()) {
        Ok((arc, _)) => assert_eq!(arc, ".LOAD VARIABLE 0;"),
        Err(_) => panic!("compilation failed"),
    }
}

#[test]
fn importing_missing_loop_file_asks_for_it() {
    match compile("import \"lib.loop\" as lib", Some("dir/main.loop"), Vec::new()) {
        Err(CompileFailure::Compiler { exception, pending_read, .. }) => {
            assert_eq!(pending_read, Some("dir/lib.loop".to_string()));
            assert!(matches!(exception.exception, CompilerExceptionCode::CanNotReadFile(_)));
        }
        _ => panic!("expected the file to be asked for"),
    }
}

#[test]
fn importing_native_library_loads_it() {
    let arc = arc_of("import \"std\" as std");
    assert_eq!(arc, ".LOADLIB {.CONSTANT CHAR[] \"std\";} \"std\";");
}

#[test]
fn integer_constant_code() {
    let mut c = Compiler::default();
    let r = compile_expression_integer(&mut c, Integer { value: -42 });
    assert!(r.is_ok());
    assert_eq!(c.functions[0].code, ".CONSTANT INT -42;");
}

#[test]
fn dry_compilation_adds_no_code() {
    let mut c = Compiler::default();
    c.drier();
    assert_eq!(c.dry, 1);
    let _ = compile_expression_string(&mut c, LoopString { value: "a".to_string() });
    assert_eq!(c.functions[0].code, "");
    c.undrier();
    assert_eq!(c.dry, 0);
    let _ = compile_expression_string(&mut c, LoopString { value: "a".to_string() });
    assert_eq!(c.functions[0].code, ".CONSTANT CHAR[] \"a\";");
}

#[test]
fn break_compiles_to_break() {
    let mut c = Compiler::default();
    let _ = compile_break_statement(&mut c, BreakStatement { expression: Box::new(Expression::Integer(Integer { value: 0 })) });
    assert_eq!(c.functions[0].code, "break");
}

#[test]
fn extending_unknown_type_fails() {
    let mut c = Compiler::default();
    let r = compile_extend_statement(&mut c, ExtendStatement { identifier: Identifier::new("list".to_string(), 0, 0), items: Vec::new() });
    match r {
        Err(e) => assert!(matches!(e.exception, CompilerExceptionCode::Unknown)),
        Ok(_) => panic!("expected an error"),
    }
}

#[test]
fn return_at_top_level_leaves_compiler_unchanged() {
    let mut c = Compiler::default();
    let r = compile_return_statement(&mut c, ReturnStatement { expression: Box::new(Expression::Integer(Integer { value: 1 })) });
    assert!(r.is_err());
    assert_eq!(c.functions[0].code, "");
}

#[test]
fn parameter_loads_use_function_identifier() {
    let mut c = Compiler::default();
    let _ = c.define_symbol("p".to_string(), picasso::types::Types::Void, 2);
    let _ = compile_expression_identifier(&mut c, Identifier::new("p".to_string(), 0, 0));
    assert_eq!(c.functions[0].code, ".LOAD PARAMETER 0 2;");
}

#[test]
fn enter_and_exit_location() {
    let mut c = Compiler::default();
    c.enter_location("a.loop".to_string());
    assert_eq!(c.location, "a.loop");
    let left = c.exit_location();
    assert_eq!(left, "a.loop");
    assert_eq!(c.location, "");
}

#[test]
fn scope_entered_and_left() {
    let mut c = Compiler::default();
    let before = c.get_symbol_scope();
    c.enter_symbol_scope();
    assert_ne!(c.get_symbol_scope(), before);
    c.exit_symbol_scope();
    assert_eq!(c.get_symbol_scope(), before);
}

#[test]
fn replacing_at_current_function() {
    let mut c = Compiler::default();
    c.add_to_current_function("A REPLACE_TYPE_1 B".to_string());
    c.replace_at_current_function("REPLACE_TYPE_1".to_string(), "INT".to_string());
    assert_eq!(c.functions[0].code, "A INT B");
}

#[test]
fn base_location_is_directory_of_file() {
    assert_eq!(picasso::base_location_of("dir/file.loop"), "dir");
    assert_eq!(picasso::base_location_of("dir"), "dir");
}

fn compiler_error(source: &str) -> CompilerExceptionCode {
    match compile(source, None, Vec::new()) {
        Err(CompileFailure::Compiler { exception, .. }) => exception.exception,
        Err(CompileFailure::Syntax { .. }) => panic!("unexpected syntax error"),
        Ok(_) => panic!("expected a compiler error"),
    }
}

#[test]
fn anonymous_function_infers_return_type() {
    assert_eq!(
        arc_of("fn() { 1 }"),
        ".FUNCTION \"\" 1 INT ARGUMENTS {} FREE {} THEN {.RETURN { .CONSTANT INT 1;};};"
    );
}

#[test]
fn named_function_loads_its_parameters() {
    assert_eq!(
        arc_of("fn f(int a) { a }"),
        ".FUNCTION \"var_0\" 1 INT ARGUMENTS {INT;} FREE {} THEN {.RETURN { .LOAD PARAMETER 1 0;};};"
    );
}

#[test]
fn duplicate_parameter_names_fail() {
    match compiler_error("fn f(int a, int a) { a }") {
        CompilerExceptionCode::DoubleParameterName(n) => assert_eq!(n, "a"),
        _ => panic!("expected a duplicate parameter"),
    }
}

#[test]
fn reassignment_keeps_type() {
    assert_eq!(arc_of("x := 5\nx = 6"), ".STORE 0 {.CONSTANT INT 5;};.STORE 0 {.CONSTANT INT 6;};");
}

#[test]
fn assigning_other_type_fails() {
    match compiler_error("x := 5\nx = true") {
        CompilerExceptionCode::WrongType(got, expected) => {
            assert_eq!(got, "BOOL");
            assert_eq!(expected, "INT");
        }
        _ => panic!("expected a type mismatch"),
    }
}

#[test]
fn calling_non_function_fails() {
    match compiler_error("x := 5\nx()") {
        CompilerExceptionCode::CallingNonFunction(t) => assert_eq!(t, "INT"),
        _ => panic!("expected a call of a non function"),
    }
}

#[test]
fn unknown_array_field_fails() {
    match compiler_error("[1].foo") {
        CompilerExceptionCode::UnknownField(field, t) => {
            assert_eq!(field, "foo");
            assert_eq!(t, "INT[]");
        }
        _ => panic!("expected an unknown field"),
    }
}

#[test]
fn too_many_locals() {
    let mut c = Compiler::default();
    c.variable_count = u32::MAX;
    match c.define_symbol("v".to_string(), picasso::types::Types::Void, -1) {
        Err(e) => assert!(matches!(e.exception, CompilerExceptionCode::TooManyLocals)),
        Ok(_) => panic!("expected too many locals"),
    }
}

#[test]
fn missing_assign_sign_is_a_syntax_error() {
    match compile("x : 5", None, Vec::new()) {
        Err(CompileFailure::Syntax { cause, .. }) => match cause {
            picasso::exception::SyntaxException::CustomMessage(title, _) => assert_eq!(title, "expected: '='"),
            _ => panic!("expected a custom message"),
        },
        _ => panic!("expected a syntax error"),
    }
}

#[test]
fn empty_array_is_an_integer_array() {
    assert_eq!(arc_of("[]"), ".CONSTANT INT[] [];");
}

#[test]
fn conditional_without_else() {
    assert_eq!(
        arc_of("if true { 1 }"),
        ".IF CONDITION { .CONSTANT BOOL true; } THEN {.RETURN { .CONSTANT INT 1;};} ELSE { };"
    );
}

#[test]
fn conditional_loop() {
    assert_eq!(
        arc_of("for (true) { 1 }"),
        ".WHILE CONDITION {.CONSTANT BOOL true;} THEN {.RETURN { .CONSTANT INT 1;};};"
    );
}

#[test]
fn literals_before_the_last_are_left_out() {
    assert_eq!(
        arc_of("fn() { 1\n2 }"),
        ".FUNCTION \"\" 1 INT ARGUMENTS {} FREE {} THEN {.RETURN { .CONSTANT INT 2;};};"
    );
}

#[test]
fn library_call_with_literal_arguments() {
    let arc = arc_of("import \"std\" as std\nstd.print(1, \"a\")");
    assert!(arc.ends_with(".CALL std::print { .CONSTANT INT 1;.CONSTANT CHAR[] \"a\";};"));
}

#[test]
fn array_of_literals() {
    assert_eq!(arc_of("[1, 2]"), ".CONSTANT INT[] [.CONSTANT INT 1;.CONSTANT INT 2;];");
}

#[test]
fn calling_named_function_loads_it() {
    let arc = arc_of("fn f(int a) { a }\nf(2)");
    assert!(arc.ends_with(".CALL {.LOAD VARIABLE 0;} {.CONSTANT INT 2;};"));
}

#[test]
fn adding_two_variables_loads_both() {
    assert_eq!(
        arc_of("x := 5\ny := 2\nx + y"),
        ".STORE 0 {.CONSTANT INT 5;};.STORE 1 {.CONSTANT INT 2;};.ADD {.LOAD VARIABLE 0;.LOAD VARIABLE 1;};"
    );
}

#[test]
fn indexing_an_array_variable() {
    let arc = arc_of("x := [1, 2]\nx[0]");
    assert!(arc.ends_with(".INDEX {.LOAD VARIABLE 0;} {.CONSTANT INT 0;};"));
}

#[test]
fn indexing_an_integer_fails() {
    match compiler_error("x := 5\nx[0]") {
        CompilerExceptionCode::WrongType(got, _) => assert_eq!(got, "INT"),
        _ => panic!("expected a type mismatch"),
    }
}

#[test]
fn assigning_an_array_element() {
    let arc = arc_of("x := [1, 2]\nx[0] = 5");
    assert!(arc.ends_with(".ASSIGN { .INDEX {.LOAD VARIABLE 0;} {.CONSTANT INT 0;}; } {.CONSTANT INT 5;};"));
}

#[test]
fn slicing_a_string_variable() {
    let arc = arc_of("x := \"hello\"\nx[0..2]");
    assert!(arc.ends_with(".SLICE { .LOAD VARIABLE 0;} { .CONSTANT INT 0;} { .SUBTRACT { .CONSTANT INT 2; .CONSTANT INT 1; }; };"));
}

#[test]
fn pushing_onto_an_array() {
    let arc = arc_of("x := [1]\nx.push(2)");
    assert!(arc.ends_with(".PUSH {.LOAD VARIABLE 0;} { .CONSTANT INT 2;};"));
}

#[test]
fn removing_from_an_array() {
    let arc = arc_of("x := [1]\nx.remove(0)");
    assert!(arc.ends_with(".POP {.LOAD VARIABLE 0;} { .CONSTANT INT 0;};"));
}

#[test]
fn length_of_an_array_variable() {
    let arc = arc_of("x := [1, 2]\nx.len()");
    assert!(arc.ends_with(".LENGTH { .LOAD VARIABLE 0;};"));
}

#[test]
fn length_of_an_integer_fails() {
    match compiler_error("x := 5\nx.len()") {
        CompilerExceptionCode::WrongType(expected, got) => {
            assert_eq!(expected, "array or string");
            assert_eq!(got, "INT");
        }
        _ => panic!("expected a type mismatch"),
    }
}

#[test]
fn declaring_from_another_variable() {
    assert_eq!(arc_of("x := 5\ny := x"), ".STORE 0 {.CONSTANT INT 5;};.STORE 1 {.LOAD VARIABLE 0;};");
}

#[test]
fn calling_a_class_instantiates_it() {
    let mut c = Compiler::default();
    let field = ClassField {
        name: "x".to_string(),
        index: 0,
        item: ClassItem::Property(picasso::parser::statement::Expression {
            expression: Box::new(Expression::Integer(Integer { value: 1 })),
        }),
    };
    let class = Class { name: "Point".to_string(), values: vec![field], inherits: String::new(), public: false };
    assert!(compile_class_statement(&mut c, class).is_ok());
    assert_eq!(c.functions[0].code, ".COMPOUND \"class_0\" { INT;};");
    let call = Call { identifier: Box::new(Expression::Identifier(Identifier::new("Point".to_string(), 0, 0))), parameters: Vec::new() };
    match compile_expression_call(&mut c, call) {
        Ok(picasso::types::Types::Compound(picasso::types::Compound(name, items))) => {
            assert_eq!(name, "Point");
            assert_eq!(items.len(), 1);
        }
        _ => panic!("expected the class type"),
    }
    assert!(c.functions[0].code.contains(".CALL { .FUNCTION \"\" 0 class_0 ARGUMENTS {} FREE {} THEN {"));
}

fn compiler_with_point() -> Compiler {
    let mut c = Compiler::default();
    let field = ClassItemType {
        name: "y".to_string(),
        index: 3,
        class_item_type: Types::Basic(BaseTypes::Integer),
        value: Expression::Integer(Integer { value: 0 }),
    };
    let point = Types::Compound(Compound("Point".to_string(), vec![field]));
    assert!(c.define_symbol("pt".to_string(), point, -1).is_ok());
    c
}

fn field_of_pt(name: &str) -> Index {
    Index {
        left: Expression::Identifier(Identifier::new("pt".to_string(), 0, 0)),
        index: Expression::Identifier(Identifier::new(name.to_string(), 0, 0)),
    }
}

#[test]
fn reading_a_field_of_an_instance() {
    let mut c = compiler_with_point();
    match compile_expression_index(&mut c, field_of_pt("y")) {
        Ok(Types::Basic(BaseTypes::Integer)) => {}
        _ => panic!("expected the field's type"),
    }
    assert_eq!(c.functions[0].code, ".INDEX { .LOAD VARIABLE 0;} { .CONSTANT INT 3; };");
}

#[test]
fn reading_a_missing_field_fails() {
    let mut c = compiler_with_point();
    match compile_expression_index(&mut c, field_of_pt("z")) {
        Err(e) => assert!(matches!(e.exception, CompilerExceptionCode::UnknownField(..))),
        Ok(_) => panic!("expected an unknown field"),
    }
}

#[test]
fn single_literal_programs() {
    assert_eq!(arc_of("42"), ".CONSTANT INT 42;");
    assert_eq!(arc_of("007"), ".CONSTANT INT 7;");
    assert_eq!(arc_of("null"), ".CONSTANT VOID;");
    assert_eq!(arc_of("false"), ".CONSTANT BOOL false;");
    let (_, state) = match compile("x := 5", None, Vec::new()) {
        Ok(r) => r,
        Err(_) => panic!("compilation failed"),
    };
    match compile_with_state("3", state, Vec::new()) {
        Ok((arc, _)) => assert_eq!(arc, ".CONSTANT INT 3;"),
        Err(_) => panic!("compilation failed"),
    }
}

#[test]
fn leaving_a_location_returns_to_the_enclosing_one() {
    let mut c = Compiler::default();
    c.enter_location("a".to_string());
    c.enter_location("b".to_string());
    let left = c.exit_location();
    assert_eq!(left, "b");
    assert_eq!(c.location, "a");
    assert_eq!(c.locations, vec!["a".to_string()]);
}

#[test]
fn counting_loop_code() {
    let mut c = Compiler::default();
    let body = Block { statements: vec![Statement::Expression(Box::new(picasso::parser::statement::Expression {
        expression: Box::new(Expression::Integer(Integer { value: 7 })),
    }))] };
    let lp = LoopIterator { identifier: Identifier::new("i".to_string(), 0, 0), body, from: 1, till: 3 };
    match compile_loop_iterator_expression(&mut c, lp) {
        Ok(Types::Basic(BaseTypes::Integer)) => {}
        _ => panic!("expected an integer loop"),
    }
    assert_eq!(c.functions[0].code, ".STORE 0 {.CONSTANT INT 1;};.WHILE CONDITION { .GREATERTHAN { .CONSTANT INT 3; .LOAD VARIABLE 0; }; } THEN {.CONSTANT INT 7;.STORE 0 { .ADD {.LOAD VARIABLE 0;.CONSTANT INT 1;};};};");
}

#[test]
fn class_members_are_typed_in_order() {
    let mut c = Compiler::default();
    let a = ClassField {
        name: "a".to_string(),
        index: 0,
        item: ClassItem::Property(picasso::parser::statement::Expression {
            expression: Box::new(Expression::Integer(Integer { value: 1 })),
        }),
    };
    let b = ClassField {
        name: "b".to_string(),
        index: 1,
        item: ClassItem::Property(picasso::parser::statement::Expression {
            expression: Box::new(Expression::String(LoopString { value: "x".to_string() })),
        }),
    };
    let class = Class { name: "Pair".to_string(), values: vec![a, b], inherits: String::new(), public: false };
    assert!(compile_class_statement(&mut c, class).is_ok());
    assert_eq!(c.functions[0].code, ".COMPOUND \"class_0\" { INT;CHAR[];};");
}

fn literal_statement(e: Expression) -> Statement {
    Statement::Expression(Box::new(picasso::parser::statement::Expression { expression: Box::new(e) }))
}

#[test]
fn array_loop_over_a_string_literal() {
    let mut c = Compiler::default();
    let body = Block { statements: vec![literal_statement(Expression::Integer(Integer { value: 7 }))] };
    let lp = LoopArrayIterator {
        identifier: Identifier::new("ch".to_string(), 0, 0),
        body,
        array: Box::new(Expression::String(LoopString { value: "ab".to_string() })),
    };
    match compile_loop_array_iterator_expression(&mut c, lp) {
        Ok(Types::Basic(BaseTypes::Integer)) => {}
        _ => panic!("expected an integer loop"),
    }
    let s = ".CONSTANT CHAR[] \"ab\";";
    let expected = format!(
        ".STORE 1 {{ .CONSTANT INT 0; }};.STORE 0 {{ .INDEX {{{s}}} {{.CONSTANT INT 0;}};}}; .WHILE CONDITION {{ .GREATERTHAN {{ .LENGTH {{{s} }}; .LOAD VARIABLE 1; }}; }} THEN {{.CONSTANT INT 7;.STORE 1 {{ .ADD {{.LOAD VARIABLE 1;.CONSTANT INT 1;}};}};.STORE 0 {{ .INDEX {{{s}}} {{ .LOAD VARIABLE 1; }}; }};}};"
    );
    assert_eq!(c.functions[0].code, expected);
}

#[test]
fn first_unknown_name_ends_the_program() {
    match compile("x := 1\nmissing\n2", None, Vec::new()) {
        Err(CompileFailure::Compiler { exception, .. }) => match exception.exception {
            CompilerExceptionCode::UnknownSymbol(s) => assert_eq!(s.name, "missing"),
            _ => panic!("expected an unknown symbol"),
        },
        Err(CompileFailure::Syntax { .. }) => panic!("unexpected syntax error"),
        Ok((arc, _)) => panic!("unexpected success: {}", arc),
    }
}

#[test]
fn replacing_the_empty_text() {
    let mut c = Compiler::default();
    c.add_to_current_function("ab".to_string());
    c.replace_at_current_function(String::new(), "-".to_string());
    assert_eq!(c.functions[0].code, "-a-b-");
}

#[test]
fn calling_an_integer_loads_it_then_fails() {
    let mut c = Compiler::default();
    assert!(c.define_symbol("x".to_string(), Types::Basic(BaseTypes::Integer), -1).is_ok());
    let call = Call { identifier: Box::new(Expression::Identifier(Identifier::new("x".to_string(), 0, 0))), parameters: Vec::new() };
    match compile_expression_call(&mut c, call) {
        Err(e) => match e.exception {
            CompilerExceptionCode::CallingNonFunction(t) => assert_eq!(t, "INT"),
            _ => panic!("expected a call of a non function"),
        },
        Ok(_) => panic!("expected an error"),
    }
    assert_eq!(c.functions[0].code, ".CALL {.LOAD VARIABLE 0;");
}

fn field(name: &str, index: u32, value: Expression) -> ClassField {
    ClassField {
        name: name.to_string(),
        index,
        item: ClassItem::Property(picasso::parser::statement::Expression { expression: Box::new(value) }),
    }
}

fn class_items(c: &Compiler, name: &str) -> Vec<(String, u32, String)> {
    match c.resolve_symbol(name) {
        Some(v) => match v._type {
            Types::Compound(Compound(class_name, items)) => {
                assert_eq!(class_name, name);
                items.iter().map(|i| (i.name.clone(), i.index, i.class_item_type.transpile())).collect()
            }
            _ => panic!("expected a class type"),
        },
        None => panic!("expected the class to be defined"),
    }
}

#[test]
fn class_symbol_holds_its_fields() {
    let mut c = Compiler::default();
    let values = vec![
        field("a", 0, Expression::Integer(Integer { value: 1 })),
        field("b", 1, Expression::String(LoopString { value: "x".to_string() })),
    ];
    let class = Class { name: "Pair".to_string(), values, inherits: String::new(), public: false };
    assert!(compile_class_statement(&mut c, class).is_ok());
    assert_eq!(class_items(&c, "Pair"), vec![
        ("a".to_string(), 0, "INT".to_string()),
        ("b".to_string(), 1, "CHAR[]".to_string()),
    ]);
    let values = vec![
        field("b", 0, Expression::Boolean(picasso::parser::expression::Boolean { value: true })),
        field("c", 1, Expression::Integer(Integer { value: 2 })),
    ];
    let child = Class { name: "Child".to_string(), values, inherits: "Pair".to_string(), public: false };
    assert!(compile_class_statement(&mut c, child).is_ok());
    assert_eq!(class_items(&c, "Child"), vec![
        ("a".to_string(), 0, "INT".to_string()),
        ("b".to_string(), 1, "BOOL".to_string()),
        ("c".to_string(), 1, "INT".to_string()),
    ]);
}

#[test]
fn first_repeated_parameter_is_reported() {
    match compiler_error("fn f(int a, int b, int b, int a) { a }") {
        CompilerExceptionCode::DoubleParameterName(n) => assert_eq!(n, "b"),
        _ => panic!("expected a duplicate parameter"),
    }
}

#[test]
fn named_function_type_lists_its_parameters() {
    let mut c = Compiler::default();
    let param = picasso::parser::expression::Parameter {
        identifier: Identifier::new("a".to_string(), 0, 0),
        _type: Types::Basic(BaseTypes::Integer),
    };
    let body = Block { statements: vec![literal_statement(Expression::Integer(Integer { value: 1 }))] };
    let f = picasso::parser::expression::Function {
        name: "f".to_string(),
        parameters: vec![param],
        body,
        predefined_type: None,
        public: false,
    };
    match picasso::compiler::compile::compile_expression_function(&mut c, f) {
        Ok(Types::Function(ft)) => {
            assert_eq!(ft.parameter_types.len(), 1);
            assert!(matches!(ft.parameter_types[0], Types::Basic(BaseTypes::Integer)));
            assert_eq!(ft.reference, "local::f");
            assert!(!ft.is_method);
        }
        _ => panic!("expected a function type"),
    }
}

#[test]
fn declared_type_must_match_value() {
    match compiler_error("int x = true") {
        CompilerExceptionCode::WrongType(got, expected) => {
            assert_eq!(got, "BOOL");
            assert_eq!(expected, "INT");
        }
        _ => panic!("expected a type mismatch"),
    }
}

#[test]
fn slicing_an_integer_fails() {
    match compiler_error("x := 5\nx[0..1]") {
        CompilerExceptionCode::WrongType(got, expected) => {
            assert_eq!(got, "INT");
            assert_eq!(expected, "Expected a string or array");
        }
        _ => panic!("expected a type mismatch"),
    }
}

#[test]
fn module_member_is_looked_up_in_its_module() {
    let mut c = Compiler::default();
    c.enter_location("m".to_string());
    assert!(c.define_symbol("f".to_string(), Types::Basic(BaseTypes::Integer), -1).is_ok());
    c.exit_location();
    assert!(c.define_symbol("m".to_string(), Types::Module("m".to_string()), -1).is_ok());
    let index = Index {
        left: Expression::Identifier(Identifier::new("m".to_string(), 0, 0)),
        index: Expression::Identifier(Identifier::new("f".to_string(), 0, 0)),
    };
    match compile_expression_index(&mut c, index) {
        Err(e) => match e.exception {
            CompilerExceptionCode::NotPublic(module, name) => {
                assert_eq!(module, "m");
                assert_eq!(name, "f");
            }
            _ => panic!("expected a private member"),
        },
        Ok(_) => panic!("expected an error"),
    }
    assert_eq!(c.functions[0].code, "");
}

#[test]
fn instantiation_stores_the_field_values() {
    let mut c = Compiler::default();
    let class = Class {
        name: "Point".to_string(),
        values: vec![field("x", 0, Expression::Integer(Integer { value: 1 }))],
        inherits: String::new(),
        public: false,
    };
    assert!(compile_class_statement(&mut c, class).is_ok());
    let call = Call { identifier: Box::new(Expression::Identifier(Identifier::new("Point".to_string(), 0, 0))), parameters: Vec::new() };
    assert!(compile_expression_call(&mut c, call).is_ok());
    assert_eq!(
        c.functions[0].code,
        ".COMPOUND \"class_0\" { INT;};.CALL { .FUNCTION \"\" 0 class_0 ARGUMENTS {} FREE {} THEN {.STORE 1 { .CONSTANT class_0 {.CONSTANT INT 1;};};.RETURN { .LOAD VARIABLE 1; };};} {};"
    );
}

#[test]
fn named_function_with_literal_body() {
    assert_eq!(
        arc_of("fn f(int a, string b) { true }"),
        ".FUNCTION \"var_0\" 1 BOOL ARGUMENTS {INT;CHAR[];} FREE {} THEN {.RETURN { .CONSTANT BOOL true;};};"
    );
}

#[test]
fn constants_cannot_be_reassigned() {
    match compile("const x := 1\nx = 2", None, Vec::new()) {
        Err(CompileFailure::Compiler { exception, thrown, .. }) => {
            assert!(matches!(exception.exception, CompilerExceptionCode::Unknown));
            assert!(thrown.is_some());
        }
        _ => panic!("expected a compiler error"),
    }
}

#[test]
fn counting_loop_leaves_one_more_variable() {
    let mut c = Compiler::default();
    let body = Block { statements: vec![literal_statement(Expression::Integer(Integer { value: 7 }))] };
    let lp = LoopIterator { identifier: Identifier::new("i".to_string(), 0, 0), body, from: 1, till: 3 };
    assert!(compile_loop_iterator_expression(&mut c, lp).is_ok());
    assert_eq!(c.variable_count, 1);
    assert_eq!(c.scope_index, 0);
}

#[test]
fn class_symbol_holds_its_methods() {
    let mut c = Compiler::default();
    let method = picasso::parser::statement::Method {
        name: "get".to_string(),
        return_type: Types::Basic(BaseTypes::Integer),
        arguments: vec![picasso::parser::expression::Parameter {
            identifier: Identifier::new("n".to_string(), 0, 0),
            _type: Types::Basic(BaseTypes::Boolean),
        }],
        body: Block { statements: vec![literal_statement(Expression::Integer(Integer { value: 1 }))] },
    };
    let values = vec![
        field("a", 0, Expression::Integer(Integer { value: 1 })),
        ClassField { name: "get".to_string(), index: 1, item: ClassItem::Method(method) },
    ];
    let class = Class { name: "Box".to_string(), values, inherits: String::new(), public: false };
    assert!(compile_class_statement(&mut c, class).is_ok());
    match c.resolve_symbol("Box") {
        Some(v) => match v._type {
            Types::Compound(Compound(_, items)) => {
                assert_eq!(items.len(), 2);
                assert_eq!(items[1].name, "get");
                assert_eq!(items[1].index, 1);
                match &items[1].class_item_type {
                    Types::Function(ft) => {
                        assert!(ft.is_method);
                        assert_eq!(ft.parameter_types.len(), 1);
                        assert!(matches!(*ft.return_type, Types::Basic(BaseTypes::Integer)));
                    }
                    _ => panic!("expected a method type"),
                }
            }
            _ => panic!("expected a class type"),
        },
        None => panic!("expected the class"),
    }
}

#[test]
fn declaration_with_a_binary_value() {
    assert_eq!(arc_of("x := 1 + 2"), ".STORE 0 {.ADD {.CONSTANT INT 1;.CONSTANT INT 2;};};");
    match compiler_error("bool b = 1 + 2") {
        CompilerExceptionCode::WrongType(got, expected) => {
            assert_eq!(got, "INT");
            assert_eq!(expected, "BOOL");
        }
        _ => panic!("expected a type mismatch"),
    }
}

#[test]
fn assignment_and_constant_with_binary_values() {
    assert_eq!(
        arc_of("x := 1\nx = x + 2"),
        ".STORE 0 {.CONSTANT INT 1;};.STORE 0 {.ADD {.LOAD VARIABLE 0;.CONSTANT INT 2;};};"
    );
    assert_eq!(arc_of("const c := 2 * 3"), ".STORE 0 {.MULTIPLY {.CONSTANT INT 2;.CONSTANT INT 3;};};");
}
