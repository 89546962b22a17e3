use picasso::sanzio::{ArcNode, ArcValue, Ast, BinaryOperation, LoadType, LuaFailure, Sanzio};

const PRELUDE: &str = "ffi = require(\"ffi\")\ngetmetatable('').__index = function(str,i) return string.sub(str,i,i) end\ngetmetatable('').__call = function(str,i,j) if type(i)~='table' then return string.sub(str,i,j) end end\n";

fn lua(nodes: Vec<ArcNode>) -> String {
    match Sanzio::compile_to_lua(&Ast { nodes }, Vec::new(), "so".to_string()) {
        Ok(b) => b.code,
        Err(_) => panic!("generation failed"),
    }
}

fn chars(s: &str) -> ArcValue {
    ArcValue::Array(s.chars().map(ArcValue::Character).collect())
}

#[test]
fn last_value_is_printed() {
    assert_eq!(lua(vec![ArcNode::Constant(ArcValue::Integer(1))]), format!("{}print(1)", PRELUDE));
}

#[test]
fn store_is_not_printed() {
    let n = ArcNode::Store(0, Box::new(ArcNode::Constant(ArcValue::Integer(5))));
    assert_eq!(lua(vec![n]), format!("{}var_0 = 5", PRELUDE));
}

#[test]
fn statements_are_separated() {
    let a = ArcNode::Store(0, Box::new(ArcNode::Constant(ArcValue::Integer(5))));
    let b = ArcNode::Suffix(BinaryOperation::Add, Box::new(ArcNode::Load(LoadType::Variable, 0)), Box::new(ArcNode::Constant(ArcValue::Integer(2))));
    assert_eq!(lua(vec![a, b]), format!("{}var_0 = 5;print((var_0+2))", PRELUDE));
}

#[test]
fn string_constants_escape_line_breaks() {
    assert_eq!(lua(vec![ArcNode::Constant(chars("a\nb"))]), format!("{}print(\"a\\\nb\")", PRELUDE));
}

#[test]
fn native_print_is_called_directly() {
    let call = ArcNode::Call(Box::new(ArcNode::Constant(chars("std::println"))), vec![ArcNode::Constant(ArcValue::Integer(1)), ArcNode::Constant(ArcValue::Boolean(true))]);
    assert_eq!(lua(vec![call]), format!("{}print(std.println(1,true))", PRELUDE));
}

#[test]
fn conditional_in_store_is_a_called_function() {
    let cond = ArcNode::Conditional(Box::new(ArcNode::Constant(ArcValue::Boolean(true))), vec![ArcNode::Constant(ArcValue::Integer(1))], vec![]);
    let store = ArcNode::Store(3, Box::new(cond));
    assert_eq!(lua(vec![store]), format!("{}var_3 = (function() if true then 1; end end)()", PRELUDE));
}

#[test]
fn functions_name_their_parameters() {
    let f = ArcNode::Function(String::new(), 7, 2, vec![ArcNode::Return(Box::new(ArcNode::Load(LoadType::Parameter(7), 1)))]);
    assert_eq!(lua(vec![f]), format!("{}print((function(param_7_0,param_7_1) return param_7_1;end))", PRELUDE));
}

#[test]
fn arrays_and_classes() {
    let arr = ArcNode::Constant(ArcValue::Array(vec![ArcValue::Integer(1), ArcValue::Integer(2)]));
    assert_eq!(lua(vec![arr]), format!("{}print(setmetatable({{1,2}}, {{ __concat = function(a, b) return table.insert(a, b) end }}))", PRELUDE));
    let class = ArcNode::Constant(ArcValue::Compound(vec![ArcValue::Integer(1), ArcValue::Void]));
    assert_eq!(lua(vec![class]), format!("{}print(({{[0 + 1] = 1,[1 + 1] = null}}))", PRELUDE));
}

#[test]
fn library_needs_its_signatures() {
    let load = ArcNode::LoadLib("libs/std".to_string(), "std".to_string());
    match Sanzio::compile_to_lua(&Ast { nodes: vec![load] }, Vec::new(), "so".to_string()) {
        Err(LuaFailure::MissingSignature(p)) => assert_eq!(p, "libs/std"),
        _ => panic!("expected the signatures to be asked for"),
    }
}

#[test]
fn library_is_declared_and_loaded() {
    let load = ArcNode::LoadLib("libs/std".to_string(), "std".to_string());
    let sigs = vec![("libs/std".to_string(), Ok("int f(int);".to_string()))];
    match Sanzio::compile_to_lua(&Ast { nodes: vec![load] }, sigs, "so".to_string()) {
        Ok(b) => assert_eq!(b.code, format!("{}print(ffi.cdef[[ int f(int); ]]\nstd = ffi.load(\"libs/std.so\"))", PRELUDE)),
        Err(_) => panic!("generation failed"),
    }
}

#[test]
fn library_name_bound_twice_fails() {
    let load = ArcNode::LoadLib("libs/std".to_string(), "std".to_string());
    let again = ArcNode::LoadLib("libs/std".to_string(), "std".to_string());
    let sigs = vec![("libs/std".to_string(), Ok("".to_string()))];
    match Sanzio::compile_to_lua(&Ast { nodes: vec![load, again] }, sigs, "so".to_string()) {
        Err(LuaFailure::Runtime(m)) => assert_eq!(m, "The libary alias std, is already in use"),
        _ => panic!("expected a runtime error"),
    }
}

fn var(i: u64) -> Box<ArcNode> {
    Box::new(ArcNode::Load(LoadType::Variable, i))
}

fn num(i: i64) -> Box<ArcNode> {
    Box::new(ArcNode::Constant(ArcValue::Integer(i)))
}

#[test]
fn loops_are_called_functions() {
    let w = ArcNode::While(Box::new(ArcNode::Constant(ArcValue::Boolean(true))), vec![ArcNode::Store(0, num(1))]);
    assert_eq!(lua(vec![w]), format!("{}print((function() while true do var_0 = 1; end end)())", PRELUDE));
}

#[test]
fn indexing_counts_from_one() {
    assert_eq!(lua(vec![ArcNode::Index(var(1), num(0))]), format!("{}print(var_1[0 + 1])", PRELUDE));
}

#[test]
fn slicing_strings_and_arrays() {
    let s = ArcNode::Slice(var(0), num(0), num(2));
    assert_eq!(
        lua(vec![s]),
        format!("{}print((function() if type(var_0) == \"string\" then return var_0(0+1,2+1) else local temp_sliced = {{}} for i = 0+1, 2+1 or #var_0, 1 do temp_sliced[#temp_sliced+1] = var_0[i] end return temp_sliced end end)())", PRELUDE)
    );
}

#[test]
fn array_operations() {
    assert_eq!(lua(vec![ArcNode::Pop(var(0), num(1))]), format!("{}print(table.remove(var_0,1+ 1))", PRELUDE));
    assert_eq!(lua(vec![ArcNode::Length(var(0))]), format!("{}print(#var_0)", PRELUDE));
    assert_eq!(lua(vec![ArcNode::Push(var(0), num(3))]), format!("{}print(var_0 .. 3)", PRELUDE));
}

#[test]
fn logical_operations() {
    let t = Box::new(ArcNode::Constant(ArcValue::Boolean(true)));
    let f = Box::new(ArcNode::Constant(ArcValue::Boolean(false)));
    assert_eq!(lua(vec![ArcNode::And(t, f)]), format!("{}print((true) and (false))", PRELUDE));
    let t = Box::new(ArcNode::Constant(ArcValue::Boolean(true)));
    let f = Box::new(ArcNode::Constant(ArcValue::Boolean(false)));
    assert_eq!(lua(vec![ArcNode::Or(t, f)]), format!("{}print((true) or (false))", PRELUDE));
}

#[test]
fn assignment_is_not_printed() {
    let a = ArcNode::Assign(Box::new(ArcNode::Index(var(0), num(0))), num(5));
    assert_eq!(lua(vec![a]), format!("{}var_0[0 + 1] = 5", PRELUDE));
}

#[test]
fn native_call_converts_c_strings() {
    let call = ArcNode::Call(Box::new(ArcNode::Constant(chars("math::abs"))), vec![ArcNode::Constant(ArcValue::Integer(-1))]);
    assert_eq!(
        lua(vec![call]),
        format!("{}print((function() local res = math.abs(-1) if type(res) == \"cdata\" then return ffi.string(res) else return res end end)())", PRELUDE)
    );
}

#[test]
fn named_functions_and_function_values() {
    let f = ArcNode::Function("f".to_string(), 2, 1, vec![ArcNode::Return(Box::new(ArcNode::Load(LoadType::Parameter(2), 0)))]);
    assert_eq!(lua(vec![f]), format!("{}print(function f(param_2_0) return param_2_0;end)", PRELUDE));
    let v = ArcNode::Constant(ArcValue::Function(1, 4, vec![ArcNode::Constant(ArcValue::Integer(1))]));
    assert_eq!(lua(vec![v]), format!("{}print((function(param_4_0) 1;end))", PRELUDE));
}

#[test]
fn scalar_constants() {
    assert_eq!(lua(vec![ArcNode::Constant(ArcValue::Character('a'))]), format!("{}print(\"a\")", PRELUDE));
    assert_eq!(lua(vec![ArcNode::Constant(ArcValue::Float("1.5".to_string()))]), format!("{}print(1.5)", PRELUDE));
    assert_eq!(lua(vec![ArcNode::Constant(ArcValue::Void)]), format!("{}print(null)", PRELUDE));
}

#[test]
fn class_declarations_take_no_semicolon() {
    assert_eq!(lua(vec![ArcNode::Compound, ArcNode::Constant(ArcValue::Integer(1))]), format!("{}print(1)", PRELUDE));
}

#[test]
fn loading_a_library_twice_warns() {
    let a = ArcNode::LoadLib("libs/std".to_string(), "std".to_string());
    let b = ArcNode::LoadLib("libs/std".to_string(), "other".to_string());
    let sigs = vec![("libs/std".to_string(), Ok("".to_string()))];
    match Sanzio::compile_to_lua(&Ast { nodes: vec![a, b] }, sigs, "so".to_string()) {
        Ok(backend) => assert_eq!(backend.warnings, vec!["RuntimeWarning: Library is already loaded".to_string()]),
        Err(_) => panic!("generation failed"),
    }
}

#[test]
fn unreadable_signatures_are_a_runtime_error() {
    let a = ArcNode::LoadLib("libs/none".to_string(), "none".to_string());
    let sigs = vec![("libs/none".to_string(), Err("The library: libs/none.so, does not exist".to_string()))];
    match Sanzio::compile_to_lua(&Ast { nodes: vec![a] }, sigs, "so".to_string()) {
        Err(LuaFailure::Runtime(m)) => assert_eq!(m, "The library: libs/none.so, does not exist"),
        _ => panic!("expected a runtime error"),
    }
}

#[test]
fn readiness_requires_qualified_native_calls() {
    let bad = ArcNode::Call(Box::new(ArcNode::Constant(chars("print"))), vec![]);
    assert!(!picasso::sanzio::node_ready(&bad));
    let good = ArcNode::Call(Box::new(ArcNode::Constant(chars("std::print"))), vec![]);
    assert!(picasso::sanzio::node_ready(&good));
}

#[test]
fn not_equals_is_lua_inequality() {
    let n = ArcNode::Suffix(BinaryOperation::NotEquals, Box::new(ArcNode::Constant(ArcValue::Integer(1))), Box::new(ArcNode::Constant(ArcValue::Integer(2))));
    assert_eq!(lua(vec![n]), format!("{}print((1~=2))", PRELUDE));
}
