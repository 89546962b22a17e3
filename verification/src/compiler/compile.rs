//! Compilation of each kind of syntax node into Arc code.
use vstd::prelude::*;
use crate::compiler::{Compiler, unknown_error, literal_statements, operand_statements_code, replace_all};
use crate::compiler::variable_table::{spec_resolve, Variable, VariableScope, spec_define_target,
    lemma_define_target_bounds, law_define_keeps_other_names, law_enter_keeps_names, is_export_name, variable_arc_name};
use crate::exception::{CompilerException, CompilerExceptionCode, UnknownSymbol, unplaced};
use crate::parser::expression::{
    Array, AssignIndex, Boolean, Call, Conditional, Float, Hashmap, Identifier, Index, Integer,
    Loop, LoopArrayIterator, LoopIterator, LoopString, Slice, Suffix, Expression,
};
use crate::parser::program::Node;
use crate::parser::statement::{
    BreakStatement, Class, ClassItem, ConstantDeclaration, Export, ExtendStatement, Import, Method,
    ReturnStatement, Statement, VariableAssign, VariableDeclaration,
};
use crate::types::{BaseTypes, BaseTypesV, ClassItemType, Compound, FunctionType, Types, TypesV, literal_value, arc_type_name};
use crate::text::{owned, concat, append_str, str_eq, str_to_chars, find_from,
    contains_str, contains_string, i64_to_string, i32_to_string, u32_to_string, int_digits,
    nat_digits, occurs_somewhere, occurs_at};

verus! {

broadcast use vstd::std_specs::vec::group_vec_axioms;

/// A compiled function: its name, its Arc code, its parameters and its result type.
pub struct Function {
    pub name: String,
    pub code: String,
    pub parameters: Vec<Parameter>,
    pub return_type: Types,
}

/// A parameter of a compiled function.
pub struct Parameter {
    pub name: String,
    pub parameter_type: Types,
}

impl Parameter {
    pub fn duplicate(&self) -> (r: Parameter)
        ensures
            r.name == self.name,
            r.parameter_type@ == self.parameter_type@,
    {
        Parameter { name: self.name.clone(), parameter_type: self.parameter_type.duplicate() }
    }
}

impl Function {
    /// A copy of this function.
    pub fn duplicate(&self) -> (r: Function)
        ensures
            r.name == self.name,
            r.code == self.code,
            r.parameters@.len() == self.parameters@.len(),
            r.return_type@ == self.return_type@,
    {
        let mut parameters: Vec<Parameter> = Vec::new();
        let mut i: usize = 0;
        while i < self.parameters.len()
            invariant
                i <= self.parameters.len(),
                parameters@.len() == i,
            decreases self.parameters.len() - i,
        {
            parameters.push(self.parameters[i].duplicate());
            i = i + 1;
        }
        Function {
            name: self.name.clone(),
            code: self.code.clone(),
            parameters,
            return_type: self.return_type.duplicate(),
        }
    }
}

/// `new` is `old` with `s` added to the code of the current function (nothing added when
/// compiling dry); nothing else changed but the remaining steps, which did not grow.
pub open spec fn emitted(old: &Compiler, new: &Compiler, s: Seq<char>) -> bool {
    &&& new.wf()
    &&& Compiler::same_but_code(old, new)
    &&& new.fuel <= old.fuel
    &&& (old.dry == 0 ==> new.code() == old.code() + s)
    &&& (old.dry > 0 ==> new.code() == old.code())
}

fn cat3(a: &str, b: &str, c: &str) -> (r: String)
    ensures
        r@ == a@ + b@ + c@,
{
    let mut s = owned(a);
    append_str(&mut s, b);
    append_str(&mut s, c);
    s
}

fn cat5(a: &str, b: &str, c: &str, d: &str, e: &str) -> (r: String)
    ensures
        r@ == a@ + b@ + c@ + d@ + e@,
{
    let mut s = owned(a);
    append_str(&mut s, b);
    append_str(&mut s, c);
    append_str(&mut s, d);
    append_str(&mut s, e);
    s
}

/// The code of an integer literal.
pub open spec fn integer_code(v: int) -> Seq<char> {
    ".CONSTANT INT "@ + int_digits(v) + ";"@
}

/// The code of a literal (a number, string, boolean or `null`), when the expression is one.
pub open spec fn literal_code(e: Expression) -> Option<Seq<char>> {
    match e {
        Expression::Integer(i) => Some(integer_code(i.value as int)),
        Expression::Float(f) => Some(".CONSTANT FLOAT "@ + f.value@ + ";"@),
        Expression::String(s) => Some(".CONSTANT CHAR[] \""@ + s.value@ + "\";"@),
        Expression::Boolean(b) => Some(if b.value { ".CONSTANT BOOL true;"@ } else { ".CONSTANT BOOL false;"@ }),
        Expression::Null(_) => Some(".CONSTANT VOID;"@),
        _ => None,
    }
}

/// The type of a literal (`null` is typed as an integer).
pub open spec fn literal_type(e: Expression) -> TypesV {
    match e {
        Expression::Float(_) => TypesV::Basic(BaseTypesV::Float),
        Expression::String(_) => TypesV::Basic(BaseTypesV::String),
        Expression::Boolean(_) => TypesV::Basic(BaseTypesV::Boolean),
        _ => TypesV::Basic(BaseTypesV::Integer),
    }
}

/// Whether an expression is a literal that, as a statement other than the last of a block,
/// has no effect (a number, string or boolean).
pub open spec fn inert_literal(e: Expression) -> bool {
    e is Integer || e is Float || e is String || e is Boolean
}

/// Whether an expression, as a statement other than the last of its block, is left out: a
/// literal, an array or a name.
pub open spec fn skipped_expression(e: Expression) -> bool {
    inert_literal(e) || e is Array || e is Identifier
}

/// Whether a statement is such an expression.
pub open spec fn skipped_statement(s: Statement) -> bool {
    s is Expression && skipped_expression(*s->Expression_0.expression)
}

/// Whether the code of a block follows from its statements alone: every statement but the
/// last is left out, and the last, if any, is an operand that compiles on its own.
pub open spec fn simple_block(c: &Compiler, s: Seq<Statement>) -> bool {
    &&& forall|i: int| 0 <= i < s.len() - 1 ==> skipped_statement(#[trigger] s[i])
    &&& s.len() > 0 ==> (s.last() is Expression && operand_code(c, *s.last()->Expression_0.expression) is Some)
}

/// The code of such a block: its last operand is returned, in braces.
pub open spec fn simple_block_code(c: &Compiler, s: Seq<Statement>) -> Seq<char> {
    if s.len() == 0 {
        "{"@ + "}"@
    } else {
        "{"@ + ".RETURN { "@ + operand_code(c, *s.last()->Expression_0.expression)->0 + "};"@ + "}"@
    }
}

/// The type of such a block: that of its last operand.
pub open spec fn simple_block_type(c: &Compiler, s: Seq<Statement>) -> TypesV {
    if s.len() == 0 {
        TypesV::Void
    } else {
        operand_type(c, *s.last()->Expression_0.expression)
    }
}

/// The code of an operand that compiles on its own: a literal, or a plain name that
/// resolves, loaded from its variable or parameter.
pub open spec fn operand_code(c: &Compiler, e: Expression) -> Option<Seq<char>> {
    operand_code_in(c.scopes@, c.current_scope(), e)
}

/// The type of such an operand: the literal's, or the variable's.
pub open spec fn operand_type(c: &Compiler, e: Expression) -> TypesV {
    match e {
        Expression::Identifier(i) => resolved(c, i.value@)->0._type@,
        _ => literal_type(e),
    }
}

/// `operand_code` with the names seen from scope `scope` of `scopes`.
pub open spec fn operand_code_in(scopes: Seq<VariableScope>, scope: int, e: Expression) -> Option<Seq<char>> {
    match e {
        Expression::Identifier(i) => match resolved_in(scopes, scope, i.value@) {
            Some(w) => Some(load_code(w.parameter_id, w.function_identifier, w.index)),
            None => None,
        },
        _ => literal_code(e),
    }
}

/// `new` is `old` after compiling the operand `e` (one step spent).
pub open spec fn compiled_operand(old: &Compiler, new: &Compiler, e: Expression) -> bool {
    &&& emitted(old, new, operand_code(old, e)->0)
    &&& new.fuel == old.fuel - 1
}

/// Compiles an integer literal: `.CONSTANT INT <value>;`, of type integer.
pub fn compile_expression_integer(compiler: &mut Compiler, integer: Integer) -> (r: Result<Types, CompilerException>)
    requires
        old(compiler).wf(),
    ensures
        final(compiler).fuel == old(compiler).fuel,
        emitted(old(compiler), final(compiler), integer_code(integer.value as int)),
        r matches Ok(t) && t@ == TypesV::Basic(BaseTypesV::Integer),
{
    let n = i64_to_string(integer.value);
    let code = cat3(".CONSTANT INT ", n.as_str(), ";");
    compiler.emit(code.as_str());
    Ok(Types::Basic(BaseTypes::Integer))
}

/// Compiles a float literal: `.CONSTANT FLOAT <text>;`, of type float.
pub fn compile_expression_float(compiler: &mut Compiler, flt: Float) -> (r: Result<Types, CompilerException>)
    requires
        old(compiler).wf(),
    ensures
        final(compiler).fuel == old(compiler).fuel,
        emitted(old(compiler), final(compiler), ".CONSTANT FLOAT "@ + flt.value@ + ";"@),
        r matches Ok(t) && t@ == TypesV::Basic(BaseTypesV::Float),
{
    let code = cat3(".CONSTANT FLOAT ", flt.value.as_str(), ";");
    compiler.emit(code.as_str());
    Ok(Types::Basic(BaseTypes::Float))
}

/// Compiles a string literal: `.CONSTANT CHAR[] "<text>";`, of type string.
pub fn compile_expression_string(compiler: &mut Compiler, string: LoopString) -> (r: Result<Types, CompilerException>)
    requires
        old(compiler).wf(),
    ensures
        final(compiler).fuel == old(compiler).fuel,
        emitted(old(compiler), final(compiler), ".CONSTANT CHAR[] \""@ + string.value@ + "\";"@),
        r matches Ok(t) && t@ == TypesV::Basic(BaseTypesV::String),
{
    let code = cat3(".CONSTANT CHAR[] \"", string.value.as_str(), "\";");
    compiler.emit(code.as_str());
    Ok(Types::Basic(BaseTypes::String))
}

/// Compiles a boolean literal: `.CONSTANT BOOL true;` or `.CONSTANT BOOL false;`.
pub fn compile_expression_boolean(compiler: &mut Compiler, bl: Boolean) -> (r: Result<Types, CompilerException>)
    requires
        old(compiler).wf(),
    ensures
        final(compiler).fuel == old(compiler).fuel,
        emitted(old(compiler), final(compiler),
            if bl.value { ".CONSTANT BOOL true;"@ } else { ".CONSTANT BOOL false;"@ }),
        r matches Ok(t) && t@ == TypesV::Basic(BaseTypesV::Boolean),
{
    if bl.value {
        compiler.emit(".CONSTANT BOOL true;");
    } else {
        compiler.emit(".CONSTANT BOOL false;");
    }
    Ok(Types::Basic(BaseTypes::Boolean))
}

/// Compiles `null`: `.CONSTANT VOID;`, typed as an integer.
pub fn compile_expression_null(compiler: &mut Compiler) -> (r: Result<Types, CompilerException>)
    requires
        old(compiler).wf(),
    ensures
        final(compiler).fuel == old(compiler).fuel,
        emitted(old(compiler), final(compiler), ".CONSTANT VOID;"@),
        r matches Ok(t) && t@ == TypesV::Basic(BaseTypesV::Integer),
{
    compiler.emit(".CONSTANT VOID;");
    Ok(Types::Basic(BaseTypes::Integer))
}

/// Compiles `break`.
pub fn compile_break_statement(compiler: &mut Compiler, _br: BreakStatement) -> (r: Result<Types, CompilerException>)
    requires
        old(compiler).wf(),
    ensures
        emitted(old(compiler), final(compiler), "break"@),
        r matches Ok(t) && t@ == TypesV::Void,
{
    compiler.emit("break");
    Ok(Types::Void)
}

/// An export adds no code and changes nothing.
pub fn compile_export_statement(compiler: &mut Compiler, _export: Export) -> (r: Result<Types, CompilerException>)
    ensures
        *final(compiler) == *old(compiler),
        r matches Ok(t) && t@ == TypesV::Void,
{
    Ok(Types::Void)
}

/// Hash map literals have no Arc form: compiling one fails with the unknown error.
pub fn compile_expression_hashmap(compiler: &mut Compiler, _hash: Hashmap) -> (r: Result<Types, CompilerException>)
    ensures
        *final(compiler) == *old(compiler),
        r == Err::<Types, CompilerException>(unplaced(CompilerExceptionCode::Unknown)),
{
    Err(unknown_error())
}

/// The code that loads a resolved variable: a parameter of its function, or a variable.
pub open spec fn load_code(parameter_id: i32, function_identifier: i32, index: u32) -> Seq<char> {
    if parameter_id > -1 {
        ".LOAD PARAMETER "@ + int_digits(function_identifier as int) + " "@ + int_digits(parameter_id as int) + ";"@
    } else {
        ".LOAD VARIABLE "@ + nat_digits(index as nat) + ";"@
    }
}

/// `new` is `old` after compiling a use of `name`: the variable it is found as (see
/// `lookup`) is loaded and gives its type; a name found in another module through
/// `module::name`, where it is not public, is `NotPublic`; a name found nowhere is
/// `UnknownSymbol` with the depth of the current scope, and nothing is emitted.
pub open spec fn identifier_compiled(old: &Compiler, new: &Compiler, name: String, r: Result<Types, CompilerException>) -> bool {
    match crate::compiler::lookup(old, name@) {
        None => r == Err::<Types, CompilerException>(unplaced(CompilerExceptionCode::UnknownSymbol(
                UnknownSymbol { name, scope_depth: old.scope_index as u16 })))
            && emitted(old, new, Seq::empty()),
        Some((s, k)) => {
            let w = old.scopes@[s].variables@[k];
            if w.parameter_id <= -1 && occurs_somewhere(name@, "::"@) && old.location@ != w.modifiers.module@
                && !w.modifiers.public {
                r matches Err(e) && e.exception is NotPublic
            } else {
                (r matches Ok(t) && t@ == w._type@) && emitted(old, new, load_code(w.parameter_id, w.function_identifier, w.index))
            }
        },
    }
}

/// Compiles a use of a name: loads the variable it resolves to, and has that variable's type.
/// An unknown name fails with `UnknownSymbol`; a `module::name` that is not public in its
/// module, used from another module, fails with `NotPublic`.
pub fn compile_expression_identifier(compiler: &mut Compiler, identifier: Identifier) -> (r: Result<Types, CompilerException>)
    requires
        old(compiler).wf(),
    ensures
        Compiler::kept(old(compiler), final(compiler)),
        final(compiler).fuel == old(compiler).fuel,
        r is Err ==> *final(compiler) == *old(compiler),
        r matches Err(e) ==> (e.exception is UnknownSymbol || e.exception is NotPublic),
        !occurs_somewhere(identifier.value@, "::"@) ==> match spec_resolve(old(compiler).scopes@, old(compiler).current_scope(), identifier.value@) {
            None => r == Err::<Types, CompilerException>(unplaced(CompilerExceptionCode::UnknownSymbol(
                (UnknownSymbol { name: identifier.value, scope_depth: old(compiler).scope_index as u16 })))),
            Some((s, k)) => {
                let w = old(compiler).scopes@[s].variables@[k];
                &&& r matches Ok(t) && t@ == w._type@
                &&& emitted(old(compiler), final(compiler), load_code(w.parameter_id, w.function_identifier, w.index))
            },
        },
        identifier_compiled(old(compiler), final(compiler), identifier.value, r),
{
    let ghost c0 = old(compiler).code();
    let var = compiler.resolve_symbol(identifier.value.as_str());
    proof {
        reveal_strlit("::");
    }
    match var {
        Some(var) => {
            if var.parameter_id > -1 {
                let f = i32_to_string(var.function_identifier);
                let p = i32_to_string(var.parameter_id);
                let code = cat5(".LOAD PARAMETER ", f.as_str(), " ", p.as_str(), ";");
                compiler.emit(code.as_str());
            } else {
                if contains_str(identifier.value.as_str(), "::")
                    && !str_eq(compiler.location.as_str(), var.modifiers.module.as_str())
                    && !var.modifiers.public {
                    return Err(CompilerException::new(0, 0, CompilerExceptionCode::NotPublic(var.modifiers.module, var.name)));
                }
                let n = u32_to_string(var.index);
                let code = cat3(".LOAD VARIABLE ", n.as_str(), ";");
                compiler.emit(code.as_str());
            }
            Ok(var._type)
        },
        None => {
            let depth = compiler.scope_index as u16;
            Err(CompilerException::new(0, 0, CompilerExceptionCode::UnknownSymbol(
                UnknownSymbol { name: identifier.value, scope_depth: depth })))
        },
    }
}

/// The opening of the Arc operation for a binary operator.
pub open spec fn suffix_opening(op: Seq<char>) -> Seq<char> {
    if op == "^"@ {
        ".POWER {"@
    } else if op == "and"@ {
        ".AND {"@
    } else if op == "or"@ {
        ".OR {"@
    } else if op == "+"@ {
        ".ADD {"@
    } else if op == "-"@ {
        ".SUBTRACT {"@
    } else if op == "*"@ {
        ".MULTIPLY {"@
    } else if op == "/"@ {
        ".DIVIDE {"@
    } else if op == ">"@ || op == "<"@ {
        ".GREATERTHAN {"@
    } else if op == "=="@ {
        ".EQUALS {"@
    } else if op == "!="@ {
        ".NOTEQUALS {"@
    } else if op == "%"@ {
        ".MODULO {"@
    } else {
        "UNKNOWN_OPERATOR"@
    }
}

/// Each source operator opens its own Arc operation: `^` POWER, `and` AND, `or` OR, `+` ADD,
/// `-` SUBTRACT, `*` MULTIPLY, `/` DIVIDE, `>` and `<` GREATERTHAN (`<` with its operands
/// swapped), `==` EQUALS, `!=` NOTEQUALS and `%` MODULO.
pub proof fn law_arc_operator_openings()
    ensures
        suffix_opening("^"@) == ".POWER {"@,
        suffix_opening("and"@) == ".AND {"@,
        suffix_opening("or"@) == ".OR {"@,
        suffix_opening("+"@) == ".ADD {"@,
        suffix_opening("-"@) == ".SUBTRACT {"@,
        suffix_opening("*"@) == ".MULTIPLY {"@,
        suffix_opening("/"@) == ".DIVIDE {"@,
        suffix_opening(">"@) == ".GREATERTHAN {"@,
        suffix_opening("<"@) == ".GREATERTHAN {"@,
        suffix_opening("=="@) == ".EQUALS {"@,
        suffix_opening("!="@) == ".NOTEQUALS {"@,
        suffix_opening("%"@) == ".MODULO {"@,
{
    reveal_strlit("^");
    reveal_strlit("and");
    reveal_strlit("or");
    reveal_strlit("+");
    reveal_strlit("-");
    reveal_strlit("*");
    reveal_strlit("/");
    reveal_strlit(">");
    reveal_strlit("<");
    reveal_strlit("==");
    reveal_strlit("!=");
    reveal_strlit("%");
    assert("and"@ != "^"@) by { assert("and"@.len() != "^"@.len()); }
    assert("or"@ != "^"@) by { assert("or"@.len() != "^"@.len()); }
    assert("or"@ != "and"@) by { assert("or"@.len() != "and"@.len()); }
    assert("+"@ != "^"@) by { assert("+"@[0] != "^"@[0]); }
    assert("+"@ != "and"@) by { assert("+"@.len() != "and"@.len()); }
    assert("+"@ != "or"@) by { assert("+"@.len() != "or"@.len()); }
    assert("-"@ != "^"@) by { assert("-"@[0] != "^"@[0]); }
    assert("-"@ != "and"@) by { assert("-"@.len() != "and"@.len()); }
    assert("-"@ != "or"@) by { assert("-"@.len() != "or"@.len()); }
    assert("-"@ != "+"@) by { assert("-"@[0] != "+"@[0]); }
    assert("*"@ != "^"@) by { assert("*"@[0] != "^"@[0]); }
    assert("*"@ != "and"@) by { assert("*"@.len() != "and"@.len()); }
    assert("*"@ != "or"@) by { assert("*"@.len() != "or"@.len()); }
    assert("*"@ != "+"@) by { assert("*"@[0] != "+"@[0]); }
    assert("*"@ != "-"@) by { assert("*"@[0] != "-"@[0]); }
    assert("/"@ != "^"@) by { assert("/"@[0] != "^"@[0]); }
    assert("/"@ != "and"@) by { assert("/"@.len() != "and"@.len()); }
    assert("/"@ != "or"@) by { assert("/"@.len() != "or"@.len()); }
    assert("/"@ != "+"@) by { assert("/"@[0] != "+"@[0]); }
    assert("/"@ != "-"@) by { assert("/"@[0] != "-"@[0]); }
    assert("/"@ != "*"@) by { assert("/"@[0] != "*"@[0]); }
    assert(">"@ != "^"@) by { assert(">"@[0] != "^"@[0]); }
    assert(">"@ != "and"@) by { assert(">"@.len() != "and"@.len()); }
    assert(">"@ != "or"@) by { assert(">"@.len() != "or"@.len()); }
    assert(">"@ != "+"@) by { assert(">"@[0] != "+"@[0]); }
    assert(">"@ != "-"@) by { assert(">"@[0] != "-"@[0]); }
    assert(">"@ != "*"@) by { assert(">"@[0] != "*"@[0]); }
    assert(">"@ != "/"@) by { assert(">"@[0] != "/"@[0]); }
    assert("<"@ != "^"@) by { assert("<"@[0] != "^"@[0]); }
    assert("<"@ != "and"@) by { assert("<"@.len() != "and"@.len()); }
    assert("<"@ != "or"@) by { assert("<"@.len() != "or"@.len()); }
    assert("<"@ != "+"@) by { assert("<"@[0] != "+"@[0]); }
    assert("<"@ != "-"@) by { assert("<"@[0] != "-"@[0]); }
    assert("<"@ != "*"@) by { assert("<"@[0] != "*"@[0]); }
    assert("<"@ != "/"@) by { assert("<"@[0] != "/"@[0]); }
    assert("<"@ != ">"@) by { assert("<"@[0] != ">"@[0]); }
    assert("=="@ != "^"@) by { assert("=="@.len() != "^"@.len()); }
    assert("=="@ != "and"@) by { assert("=="@.len() != "and"@.len()); }
    assert("=="@ != "or"@) by { assert("=="@[0] != "or"@[0]); }
    assert("=="@ != "+"@) by { assert("=="@.len() != "+"@.len()); }
    assert("=="@ != "-"@) by { assert("=="@.len() != "-"@.len()); }
    assert("=="@ != "*"@) by { assert("=="@.len() != "*"@.len()); }
    assert("=="@ != "/"@) by { assert("=="@.len() != "/"@.len()); }
    assert("=="@ != ">"@) by { assert("=="@.len() != ">"@.len()); }
    assert("=="@ != "<"@) by { assert("=="@.len() != "<"@.len()); }
    assert("!="@ != "^"@) by { assert("!="@.len() != "^"@.len()); }
    assert("!="@ != "and"@) by { assert("!="@.len() != "and"@.len()); }
    assert("!="@ != "or"@) by { assert("!="@[0] != "or"@[0]); }
    assert("!="@ != "+"@) by { assert("!="@.len() != "+"@.len()); }
    assert("!="@ != "-"@) by { assert("!="@.len() != "-"@.len()); }
    assert("!="@ != "*"@) by { assert("!="@.len() != "*"@.len()); }
    assert("!="@ != "/"@) by { assert("!="@.len() != "/"@.len()); }
    assert("!="@ != ">"@) by { assert("!="@.len() != ">"@.len()); }
    assert("!="@ != "<"@) by { assert("!="@.len() != "<"@.len()); }
    assert("!="@ != "=="@) by { assert("!="@[0] != "=="@[0]); }
    assert("%"@ != "^"@) by { assert("%"@[0] != "^"@[0]); }
    assert("%"@ != "and"@) by { assert("%"@.len() != "and"@.len()); }
    assert("%"@ != "or"@) by { assert("%"@.len() != "or"@.len()); }
    assert("%"@ != "+"@) by { assert("%"@[0] != "+"@[0]); }
    assert("%"@ != "-"@) by { assert("%"@[0] != "-"@[0]); }
    assert("%"@ != "*"@) by { assert("%"@[0] != "*"@[0]); }
    assert("%"@ != "/"@) by { assert("%"@[0] != "/"@[0]); }
    assert("%"@ != ">"@) by { assert("%"@[0] != ">"@[0]); }
    assert("%"@ != "<"@) by { assert("%"@[0] != "<"@[0]); }
    assert("%"@ != "=="@) by { assert("%"@.len() != "=="@.len()); }
    assert("%"@ != "!="@) by { assert("%"@.len() != "!="@.len()); }
}

/// `a < b` compiles as `b > a`: a less-than comparison is the greater-than operation with its
/// operands swapped.
pub proof fn law_less_than_swaps(c: &Compiler, less: Suffix, greater: Suffix)
    requires
        less.operator@ == "<"@,
        greater.operator@ == ">"@,
        greater.left == less.right,
        greater.right == less.left,
    ensures
        suffix_code(c, less) == suffix_code(c, greater),
{
    law_arc_operator_openings();
    reveal_strlit("<");
    reveal_strlit(">");
    assert(">"@[0] != "<"@[0]);
}

/// The opening of the Arc operation for a binary operator.
pub fn suffix_opening_code(op: &str) -> (r: &'static str)
    ensures
        r@ == suffix_opening(op@),
{
    proof {
        reveal_strlit("^"); reveal_strlit("and"); reveal_strlit("or"); reveal_strlit("+");
        reveal_strlit("-"); reveal_strlit("*"); reveal_strlit("/"); reveal_strlit(">");
        reveal_strlit("<"); reveal_strlit("=="); reveal_strlit("!="); reveal_strlit("%");
    }
    if str_eq(op, "^") {
        ".POWER {"
    } else if str_eq(op, "and") {
        ".AND {"
    } else if str_eq(op, "or") {
        ".OR {"
    } else if str_eq(op, "+") {
        ".ADD {"
    } else if str_eq(op, "-") {
        ".SUBTRACT {"
    } else if str_eq(op, "*") {
        ".MULTIPLY {"
    } else if str_eq(op, "/") {
        ".DIVIDE {"
    } else if str_eq(op, ">") || str_eq(op, "<") {
        ".GREATERTHAN {"
    } else if str_eq(op, "==") {
        ".EQUALS {"
    } else if str_eq(op, "!=") {
        ".NOTEQUALS {"
    } else if str_eq(op, "%") {
        ".MODULO {"
    } else {
        "UNKNOWN_OPERATOR"
    }
}

/// The code of a binary operation on operands: its opening, both operands (the right one
/// first for `<`), and `};`.
pub open spec fn suffix_code(c: &Compiler, s: Suffix) -> Seq<char> {
    suffix_opening(s.operator@) + (if s.operator@ == "<"@ { operand_code(c, s.right)->0 + operand_code(c, s.left)->0 }
        else { operand_code(c, s.left)->0 + operand_code(c, s.right)->0 }) + "};"@
}

/// The code of a value that is an operand, or a binary operation on operands.
#[verifier::opaque]
pub open spec fn value_code(c: &Compiler, e: Expression) -> Option<Seq<char>> {
    match e {
        Expression::Suffix(s) => if operand_code(c, s.left) is Some && operand_code(c, s.right) is Some {
            Some(suffix_code(c, *s))
        } else {
            None
        },
        _ => operand_code(c, e),
    }
}

/// The type of such a value: a binary operation is an integer.
pub open spec fn value_type(c: &Compiler, e: Expression) -> TypesV {
    match e {
        Expression::Suffix(_) => TypesV::Basic(BaseTypesV::Integer),
        _ => operand_type(c, e),
    }
}

/// Whether the value `e` does not use the plain name `n`.
pub open spec fn value_avoids(e: Expression, n: Seq<char>) -> bool {
    match e {
        Expression::Identifier(i) => i.value@ != n,
        Expression::Suffix(s) => !(s.left is Identifier && s.left->Identifier_0.value@ == n)
            && !(s.right is Identifier && s.right->Identifier_0.value@ == n),
        _ => true,
    }
}

/// Compiles a binary operation: its opening, both operands (the right one first for `<`,
/// which is compiled as a swapped `>`), and `};`. Its type is integer.
pub fn compile_expression_suffix(compiler: &mut Compiler, suffix: Suffix) -> (r: Result<Types, CompilerException>)
    requires
        old(compiler).wf(),
    ensures
        Compiler::kept(old(compiler), final(compiler)),
        r matches Ok(t) ==> t@ == TypesV::Basic(BaseTypesV::Integer),
        old(compiler).fuel > 2 && operand_code(old(compiler), suffix.left) is Some && operand_code(old(compiler), suffix.right) is Some
            ==> r is Ok && emitted(old(compiler), final(compiler), suffix_opening(suffix.operator@)
                + (if suffix.operator@ == "<"@ { operand_code(old(compiler), suffix.right)->0 + operand_code(old(compiler), suffix.left)->0 }
                    else { operand_code(old(compiler), suffix.left)->0 + operand_code(old(compiler), suffix.right)->0 }) + "};"@)
                && final(compiler).fuel == old(compiler).fuel - 3,
    decreases old(compiler).fuel,
{
    let ghost c0 = old(compiler).code();
    if !compiler.spend() {
        return Err(unknown_error());
    }
    proof { reveal_strlit("<"); }
    let opening = suffix_opening_code(suffix.operator.as_str());
    compiler.emit(opening);
    let Suffix { left, operator, right } = suffix;
    if str_eq(operator.as_str(), "<") {
        compiler.compile_expression(right)?;
        compiler.compile_expression(left)?;
    } else {
        compiler.compile_expression(left)?;
        compiler.compile_expression(right)?;
    }
    compiler.emit("};");
    proof {
        if old(compiler).dry == 0 && old(compiler).fuel > 2 && operand_code(old(compiler), left) is Some && operand_code(old(compiler), right) is Some {
            assert(compiler.code() =~= c0 + (suffix_opening(operator@)
                + (if operator@ == "<"@ { operand_code(old(compiler), right)->0 + operand_code(old(compiler), left)->0 }
                    else { operand_code(old(compiler), left)->0 + operand_code(old(compiler), right)->0 }) + "};"@));
        }
    }
    Ok(Types::Basic(BaseTypes::Integer))
}

/// Compiles an array literal. An empty one is `.CONSTANT INT[] [];`; otherwise the values
/// are compiled between `.CONSTANT INT[] [` and `];`, and the array's element type is the
/// type of the first value.
pub fn compile_expression_array(compiler: &mut Compiler, arr: Array) -> (r: Result<Types, CompilerException>)
    requires
        old(compiler).wf(),
    ensures
        Compiler::kept(old(compiler), final(compiler)),
        r matches Ok(t) ==> t@ is Array,
        arr.values@.len() == 0 && old(compiler).fuel > 0 ==> (r matches Ok(t)
            && t@ == TypesV::Array(Box::new(TypesV::Basic(BaseTypesV::Integer)))
            && (old(compiler).dry == 0 ==> final(compiler).code() == old(compiler).code() + ".CONSTANT INT[] [];"@)),
        arr.values@.len() > 0 && operand_args(old(compiler), value_expressions(arr.values@)) && old(compiler).fuel > arr.values@.len()
            ==> (r matches Ok(t) && t@ == TypesV::Array(Box::new(operand_type(old(compiler), *arr.values@[0].expression))))
                && emitted(old(compiler), final(compiler),
                    ".CONSTANT INT[] ["@ + args_code(old(compiler), value_expressions(arr.values@)) + "];"@),
    decreases old(compiler).fuel,
{
    let ghost c0 = old(compiler).code();
    let ghost orig = value_expressions(arr.values@);
    let ghost n: int = arr.values@.len() as int;
    if !compiler.spend() {
        return Err(unknown_error());
    }
    let element = Types::Basic(BaseTypes::Integer);
    assert(element@ == TypesV::Basic(BaseTypesV::Integer));
    let mut array_type = Types::Array(Box::new(element));
    let ghost count = arr.values@.len();
    if arr.values.len() > 0 {
        compiler.emit(".CONSTANT INT[] [");
        proof {
            assert(orig.take(0) =~= Seq::<Expression>::empty());
            assert(".CONSTANT INT[] ["@ + args_code(old(compiler), orig.take(0)) =~= ".CONSTANT INT[] ["@);
        }
        let mut values = crate::compiler::reversed(arr.values);
        let mut first = true;
        while values.len() > 0
            invariant
                Compiler::kept(old(compiler), compiler),
                old(compiler).wf(),
                compiler.fuel < old(compiler).fuel,
                array_type@ is Array,
                count == arr.values@.len(),
                count > 0,
                n == count,
                c0 == old(compiler).code(),
                orig == value_expressions(arr.values@),
                values@.len() <= n,
                forall|i: int| 0 <= i < values@.len() ==> *(#[trigger] values@[i]).expression == orig[n - 1 - i],
                first == (values@.len() == n),
                operand_args(old(compiler), orig) && old(compiler).fuel > n ==> {
                    &&& emitted(old(compiler), compiler, ".CONSTANT INT[] ["@ + args_code(old(compiler), orig.take(n - values@.len())))
                    &&& compiler.fuel == old(compiler).fuel - 1 - (n - values@.len())
                    &&& (!first ==> array_type@ == TypesV::Array(Box::new(operand_type(old(compiler), orig[0]))))
                },
            decreases values.len(),
        {
            let ghost k = n - values@.len();
            let value = values.pop().unwrap();
            assert(*value.expression == orig[k]);
            proof {
                if operand_args(old(compiler), orig) && old(compiler).fuel > n {
                    assert(operand_code(old(compiler), orig[k]) is Some);
                    assert(compiler.fuel > 0);
                }
            }
            let result = compiler.compile_expression(*value.expression)?;
            if first {
                array_type = Types::Array(Box::new(result));
                first = false;
            }
            proof {
                if operand_args(old(compiler), orig) && old(compiler).fuel > n {
                    assert(orig.take(k + 1).drop_last() =~= orig.take(k));
                    assert(orig.take(k + 1).last() == orig[k]);
                    if old(compiler).dry == 0 {
                        assert(compiler.code() =~= c0 + (".CONSTANT INT[] ["@ + args_code(old(compiler), orig.take(k + 1))));
                    }
                }
            }
        }
        compiler.emit("];");
        proof {
            if operand_args(old(compiler), orig) && old(compiler).fuel > n {
                assert(orig.take(n) =~= orig);
                if old(compiler).dry == 0 {
                    assert(compiler.code() =~= c0 + (".CONSTANT INT[] ["@ + args_code(old(compiler), orig) + "];"@));
                }
            }
        }
    } else {
        compiler.emit(".CONSTANT INT[] [];");
        assert(array_type@ == TypesV::Array(Box::new(TypesV::Basic(BaseTypesV::Integer))));
    }
    Ok(array_type)
}

/// The expressions of the values of an array literal.
pub open spec fn value_expressions(values: Seq<crate::parser::statement::Expression>) -> Seq<Expression> {
    values.map_values(|v: crate::parser::statement::Expression| *v.expression)
}

/// Compiles an `if`: `.IF CONDITION { <condition> } THEN <block> ELSE <else> ;`, where the
/// else part is an expression in braces, a block, or `{ }`. Its type is that of the block.
pub fn compile_expression_conditional(compiler: &mut Compiler, conditional: Conditional) -> (r: Result<Types, CompilerException>)
    requires
        old(compiler).wf(),
    ensures
        Compiler::kept(old(compiler), final(compiler)),
        old(compiler).fuel > 4 && operand_code(old(compiler), *conditional.condition) is Some && conditional.else_condition is None
            && simple_block(old(compiler), conditional.body.statements@)
            ==> (r matches Ok(t) && t@ == simple_block_type(old(compiler), conditional.body.statements@))
                && (old(compiler).dry == 0 ==> final(compiler).code() == old(compiler).code() + (".IF CONDITION { "@
                    + operand_code(old(compiler), *conditional.condition)->0 + " } THEN "@ + simple_block_code(old(compiler), conditional.body.statements@)
                    + " ELSE "@ + "{ }"@ + ";"@))
                && (old(compiler).scope_index < i32::MAX ==> final(compiler).scope_index == old(compiler).scope_index),
    decreases old(compiler).fuel,
{
    let ghost c0 = old(compiler).code();
    if !compiler.spend() {
        return Err(unknown_error());
    }
    let Conditional { condition, body, else_condition } = conditional;
    compiler.emit(".IF CONDITION { ");
    compiler.compile_expression(*condition)?;
    compiler.emit(" } THEN ");
    let ghost body_s = body.statements@;
    let ghost no_else = else_condition is None;
    let if_type = compiler.compile_block(body, true)?;
    compiler.emit(" ELSE ");
    match else_condition {
        Some(node) => match *node {
            Node::Expression(exp) => {
                compiler.emit("{");
                compiler.compile_expression(exp)?;
                compiler.emit("}");
            },
            Node::Statement(Statement::Block(block)) => {
                compiler.compile_block(block, true)?;
            },
            Node::Statement(_) => {},
        },
        None => {
            compiler.emit("{ }");
        },
    }
    compiler.emit(";");
    proof {
        if old(compiler).dry == 0 && old(compiler).fuel > 4 && operand_code(old(compiler), *condition) is Some && no_else
            && simple_block(old(compiler), body_s) {
            assert(compiler.code() =~= c0 + (".IF CONDITION { "@ + operand_code(old(compiler), *condition)->0 + " } THEN "@
                + simple_block_code(old(compiler), body_s) + " ELSE "@ + "{ }"@ + ";"@));
        }
    }
    Ok(if_type)
}

/// Compiles `return <expression>` as `.RETURN {<expression>};`; its type is the
/// expression's. At the top level (scope index 0) it fails with
/// `ReturnStatementNotAllowedOutsideFunction`.
pub fn compile_return_statement(compiler: &mut Compiler, rt: ReturnStatement) -> (r: Result<Types, CompilerException>)
    requires
        old(compiler).wf(),
    ensures
        Compiler::kept(old(compiler), final(compiler)),
        old(compiler).scope_index == 0 ==> *final(compiler) == *old(compiler)
            && r == Err::<Types, CompilerException>(unplaced(CompilerExceptionCode::ReturnStatementNotAllowedOutsideFunction)),
        old(compiler).scope_index != 0 && old(compiler).fuel > 1 && operand_code(old(compiler), *rt.expression) is Some
            ==> (r matches Ok(t) && t@ == operand_type(old(compiler), *rt.expression))
                && emitted(old(compiler), final(compiler), ".RETURN {"@ + operand_code(old(compiler), *rt.expression)->0 + "};"@),
    decreases old(compiler).fuel,
{
    let ghost c0 = old(compiler).code();
    if compiler.scope_index == 0 {
        return Err(CompilerException::new(0, 0, CompilerExceptionCode::ReturnStatementNotAllowedOutsideFunction));
    }
    if !compiler.spend() {
        return Err(unknown_error());
    }
    compiler.emit(".RETURN {");
    let result = compiler.compile_expression(*rt.expression);
    compiler.emit("};");
    proof {
        if old(compiler).dry == 0 && old(compiler).fuel > 1 && operand_code(old(compiler), *rt.expression) is Some {
            assert(compiler.code() =~= c0 + (".RETURN {"@ + operand_code(old(compiler), *rt.expression)->0 + "};"@));
        }
    }
    result
}

/// Compiles a conditional loop in a new scope, which stays the current one afterwards:
/// `.WHILE CONDITION {<condition>} THEN <block>;`. Its type is the block's.
pub fn compile_loop_expression(compiler: &mut Compiler, lp: Loop) -> (r: Result<Types, CompilerException>)
    requires
        old(compiler).wf(),
    ensures
        Compiler::kept(old(compiler), final(compiler)),
        old(compiler).fuel > 4 && operand_code(old(compiler), *lp.condition) is Some
            && simple_block(old(compiler), lp.body.statements@)
            ==> (r matches Ok(t) && t@ == simple_block_type(old(compiler), lp.body.statements@))
                && (old(compiler).dry == 0 ==> final(compiler).code() == old(compiler).code() + (".WHILE CONDITION {"@
                    + operand_code(old(compiler), *lp.condition)->0 + "} THEN "@ + simple_block_code(old(compiler), lp.body.statements@) + ";"@))
                && (old(compiler).scope_index < i32::MAX - 1 ==> final(compiler).scope_index == old(compiler).scope_index + 1),
    decreases old(compiler).fuel,
{
    let ghost c0 = old(compiler).code();
    if !compiler.spend() {
        return Err(unknown_error());
    }
    let ghost before = *compiler;
    compiler.enter_symbol_scope();
    proof {
        crate::compiler::lemma_scope_of_bound(before.symbol_scope@, before.location@, before.scopes@.len());
        if *lp.condition is Identifier {
            law_enter_keeps_names(before.scopes@, compiler.scopes@, before.current_scope() as usize,
                lp.condition->Identifier_0.value@);
        }
        let stmts = lp.body.statements@;
        if stmts.len() > 0 && stmts.last() is Expression && *stmts.last()->Expression_0.expression is Identifier {
            law_enter_keeps_names(before.scopes@, compiler.scopes@, before.current_scope() as usize,
                stmts.last()->Expression_0.expression->Identifier_0.value@);
        }
    }
    compiler.emit(".WHILE CONDITION {");
    compiler.compile_expression(*lp.condition)?;
    compiler.emit("} THEN ");
    let ghost body = lp.body.statements@;
    let result = compiler.compile_block(lp.body, false);
    compiler.emit(";");
    proof {
        if old(compiler).dry == 0 && old(compiler).fuel > 4 && operand_code(old(compiler), *lp.condition) is Some
            && simple_block(old(compiler), body) {
            assert(compiler.code() =~= c0 + (".WHILE CONDITION {"@ + operand_code(old(compiler), *lp.condition)->0 + "} THEN "@
                + simple_block_code(old(compiler), body) + ";"@));
        }
    }
    result
}

/// Compiles a counting loop `for var i = from to till`: the counter is a new integer
/// variable, stored `from`, tested against `till`, and incremented after the body.
pub fn compile_loop_iterator_expression(compiler: &mut Compiler, lp: LoopIterator) -> (r: Result<Types, CompilerException>)
    requires
        old(compiler).wf(),
    ensures
        Compiler::kept(old(compiler), final(compiler)),
        old(compiler).fuel > 0 && old(compiler).variable_count == u32::MAX
            ==> r == Err::<Types, CompilerException>(unplaced(CompilerExceptionCode::TooManyLocals)),
        old(compiler).fuel > 2 * lp.body.statements@.len() + 2 && old(compiler).variable_count < u32::MAX
            && literal_statements(lp.body.statements@) ==> ({
            let stmts = lp.body.statements@;
            &&& r matches Ok(t) && t@ == (if stmts.len() == 0 { TypesV::Void } else {
                literal_type(*stmts.last()->Expression_0.expression) })
            &&& old(compiler).dry == 0 ==> final(compiler).code() == old(compiler).code()
                + counting_loop_code(old(compiler).variable_count, lp.from, lp.till, literal_statements_code(stmts))
            &&& final(compiler).variable_count == old(compiler).variable_count + 1
            &&& old(compiler).scope_index < i32::MAX - 1 ==> final(compiler).scope_index == old(compiler).scope_index
        }),
    decreases old(compiler).fuel,
{
    let ghost c0 = old(compiler).code();
    let ghost stmts = lp.body.statements@;
    let ghost lit = old(compiler).fuel > 2 * lp.body.statements@.len() + 2 && old(compiler).variable_count < u32::MAX
        && literal_statements(lp.body.statements@);
    if !compiler.spend() {
        return Err(unknown_error());
    }
    compiler.enter_symbol_scope();
    let var = compiler.define_symbol(lp.identifier.value, Types::Basic(BaseTypes::Integer), -1)?;
    let idx = u32_to_string(var.index);
    let from = u32_to_string(lp.from);
    let code = cat5(".STORE ", idx.as_str(), " {.CONSTANT INT ", from.as_str(), ";};");
    compiler.emit(code.as_str());
    let till = u32_to_string(lp.till);
    let code = cat5(".WHILE CONDITION { .GREATERTHAN { .CONSTANT INT ", till.as_str(), "; .LOAD VARIABLE ", idx.as_str(), "; }; } THEN {");
    compiler.emit(code.as_str());
    let ghost before_body = *compiler;
    let result = compiler.compile_loop_block(lp.body)?;
    proof {
        if lit {
            lemma_literal_statements_code(&before_body, stmts);
        }
    }
    compiler.exit_symbol_scope();
    let code = cat5(".STORE ", idx.as_str(), " { .ADD {.LOAD VARIABLE ", idx.as_str(), ";.CONSTANT INT 1;};};");
    compiler.emit(code.as_str());
    compiler.emit("};");
    proof {
        if lit && old(compiler).dry == 0 {
            assert(compiler.code() =~= c0 + counting_loop_code(old(compiler).variable_count, lp.from, lp.till,
                literal_statements_code(stmts)));
        }
    }
    Ok(result)
}

/// The code of a counting loop with counter variable `index`, from `from` up to `till`,
/// around the body code `body`.
pub open spec fn counting_loop_code(index: u32, from: u32, till: u32, body: Seq<char>) -> Seq<char> {
    let i = nat_digits(index as nat);
    ".STORE "@ + i + " {.CONSTANT INT "@ + nat_digits(from as nat) + ";};"@
        + ".WHILE CONDITION { .GREATERTHAN { .CONSTANT INT "@ + nat_digits(till as nat) + "; .LOAD VARIABLE "@ + i
        + "; }; } THEN {"@ + body + ".STORE "@ + i + " { .ADD {.LOAD VARIABLE "@ + i + ";.CONSTANT INT 1;};};"@ + "};"@
}

/// The code of literal expression statements, one after the other.
pub open spec fn literal_statements_code(stmts: Seq<Statement>) -> Seq<char>
    decreases stmts.len(),
{
    if stmts.len() == 0 {
        Seq::empty()
    } else {
        literal_statements_code(stmts.drop_last()) + literal_code(*stmts.last()->Expression_0.expression)->0
    }
}

/// Literal statements compile to the same code whatever the names in scope.
pub proof fn lemma_literal_statements_code(c: &Compiler, stmts: Seq<Statement>)
    requires
        literal_statements(stmts),
    ensures
        operand_statements_code(c, stmts) == literal_statements_code(stmts),
    decreases stmts.len(),
{
    if stmts.len() > 0 {
        assert(literal_statements(stmts.drop_last())) by {
            assert forall|i: int| 0 <= i < stmts.drop_last().len() implies (#[trigger] stmts.drop_last()[i]) is Expression
                && literal_code(*stmts.drop_last()[i]->Expression_0.expression) is Some by {
                assert(stmts.drop_last()[i] == stmts[i]);
            }
        }
        lemma_literal_statements_code(c, stmts.drop_last());
        assert(stmts.last() == stmts[stmts.len() - 1]);
    }
}

/// The code of a loop over the items of the operand of code `array`: the index variable
/// `index` counts from 0 while it is below the operand's length, and the loop variable `item`
/// holds the item at the index.
pub open spec fn array_loop_code(item: u32, index: u32, array: Seq<char>, body: Seq<char>) -> Seq<char> {
    let i = nat_digits(index as nat);
    let v = nat_digits(item as nat);
    ".STORE "@ + i + " { .CONSTANT INT 0; };"@
        + ".STORE "@ + v + " { "@ + ".INDEX {"@ + array + "} {"@ + integer_code(0) + "};"@
        + "}; .WHILE CONDITION { .GREATERTHAN { .LENGTH {"@ + array + " }; .LOAD VARIABLE "@ + i
        + "; }; } THEN {"@ + body
        + ".STORE "@ + i + " { .ADD {.LOAD VARIABLE "@ + i + ";.CONSTANT INT 1;};};"@
        + ".STORE "@ + v + " { .INDEX {"@ + array + "} { .LOAD VARIABLE "@ + i + "; }; };"@
        + "};"@
}

/// Compiles a loop over the values of an array: an index variable counts from 0 up to the
/// array's length, and the loop variable holds the value at the index. The loop has the type
/// of its body; the scope of the two variables stays the current one afterwards.
#[verifier::rlimit(100)]
#[verifier::spinoff_prover]
pub fn compile_loop_array_iterator_expression(compiler: &mut Compiler, lp: LoopArrayIterator) -> (r: Result<Types, CompilerException>)
    requires
        old(compiler).wf(),
    ensures
        Compiler::kept(old(compiler), final(compiler)),
        old(compiler).fuel > 0 && old(compiler).variable_count >= u32::MAX - 1
            ==> r == Err::<Types, CompilerException>(unplaced(CompilerExceptionCode::TooManyLocals)),
        old(compiler).fuel > 2 * lp.body.statements@.len() + 7 && old(compiler).variable_count < u32::MAX - 1
            && literal_code(*lp.array) is Some && literal_statements(lp.body.statements@) ==> ({
            let stmts = lp.body.statements@;
            &&& r matches Ok(t) && t@ == (if stmts.len() == 0 { TypesV::Void } else {
                literal_type(*stmts.last()->Expression_0.expression) })
            &&& old(compiler).dry == 0 ==> final(compiler).code() == old(compiler).code()
                + array_loop_code(old(compiler).variable_count, (old(compiler).variable_count + 1) as u32,
                    literal_code(*lp.array)->0, literal_statements_code(stmts))
            &&& final(compiler).variable_count == old(compiler).variable_count + 2
            &&& old(compiler).scope_index < i32::MAX - 1 ==> final(compiler).scope_index == old(compiler).scope_index + 1
        }),
    decreases old(compiler).fuel,
{
    let ghost c0 = old(compiler).code();
    let ghost stmts = lp.body.statements@;
    let ghost lit = old(compiler).fuel > 2 * lp.body.statements@.len() + 7 && old(compiler).variable_count < u32::MAX - 1
        && literal_code(*lp.array) is Some && literal_statements(lp.body.statements@);
    let ghost a = literal_code(*lp.array)->0;
    if !compiler.spend() {
        return Err(unknown_error());
    }
    compiler.enter_symbol_scope();
    let var = compiler.define_symbol(lp.identifier.value, Types::Basic(BaseTypes::Integer), -1)?;
    let index = compiler.define_symbol(owned("INDEX_D"), Types::Basic(BaseTypes::Integer), -1)?;
    let ii = u32_to_string(index.index);
    let vi = u32_to_string(var.index);
    let code = cat3(".STORE ", ii.as_str(), " { .CONSTANT INT 0; };");
    compiler.emit(code.as_str());
    let code = cat3(".STORE ", vi.as_str(), " { ");
    compiler.emit(code.as_str());
    let first = lp.array.duplicate();
    proof {
        if lit {
            assert(crate::parser::expression::same_expr(*lp.array, first));
            assert(literal_code(first) == literal_code(*lp.array));
            assert(operand_code(compiler, first) == literal_code(first));
            assert(operand_code(compiler, Expression::Integer(Integer { value: 0 })) == Some(integer_code(0)));
        }
    }
    let ghost before_index = compiler.code();
    let ghost fuel_index = compiler.fuel;
    let _ = compile_expression_index(compiler, Index {
        left: first,
        index: Expression::Integer(Integer { value: 0 }),
    });
    proof {
        if lit {
            assert(compiler.fuel == fuel_index - 4);
            if old(compiler).dry == 0 {
                assert(compiler.code() == before_index + (".INDEX {"@ + a + "} {"@ + integer_code(0) + "};"@));
            }
        }
    }
    compiler.emit("}; .WHILE CONDITION { .GREATERTHAN { .LENGTH {");
    let second = lp.array.duplicate();
    proof {
        if lit {
            assert(crate::parser::expression::same_expr(*lp.array, second));
            assert(operand_code(compiler, second) == literal_code(*lp.array));
        }
    }
    compiler.compile_expression(second)?;
    let code = cat3(" }; .LOAD VARIABLE ", ii.as_str(), "; }; } THEN {");
    compiler.emit(code.as_str());
    let ghost before_body = *compiler;
    proof {
        if lit && old(compiler).dry == 0 {
            assert(before_body.code() =~= c0 + (".STORE "@ + nat_digits(index.index as nat) + " { .CONSTANT INT 0; };"@
                + ".STORE "@ + nat_digits(var.index as nat) + " { "@ + (".INDEX {"@ + a + "} {"@ + integer_code(0) + "};"@)
                + "}; .WHILE CONDITION { .GREATERTHAN { .LENGTH {"@ + a + " }; .LOAD VARIABLE "@
                + nat_digits(index.index as nat) + "; }; } THEN {"@));
        }
    }
    let result = compiler.compile_loop_block(lp.body)?;
    proof {
        if lit {
            lemma_literal_statements_code(&before_body, stmts);
            assert(operand_code(compiler, *lp.array) == literal_code(*lp.array));
        }
    }
    let code = cat5(".STORE ", ii.as_str(), " { .ADD {.LOAD VARIABLE ", ii.as_str(), ";.CONSTANT INT 1;};};");
    compiler.emit(code.as_str());
    let code = cat3(".STORE ", vi.as_str(), " { .INDEX {");
    compiler.emit(code.as_str());
    compiler.compile_expression(*lp.array)?;
    let code = cat3("} { .LOAD VARIABLE ", ii.as_str(), "; }; };");
    compiler.emit(code.as_str());
    compiler.emit("};");
    proof {
        if lit && old(compiler).dry == 0 {
            assert(compiler.code() =~= c0 + array_loop_code(old(compiler).variable_count,
                (old(compiler).variable_count + 1) as u32, a, literal_statements_code(stmts)));
        }
    }
    Ok(result)
}

/// The type of an element of a value of type `t`: that of an array's items, or a string for
/// a string; `None` when `t` cannot be indexed.
pub open spec fn element_type(t: TypesV) -> Option<TypesV> {
    match t {
        TypesV::Array(v) => Some(*v),
        TypesV::Basic(BaseTypesV::String) => Some(TypesV::Basic(BaseTypesV::String)),
        _ => None,
    }
}

/// `new` is `old` after compiling `left[index]` for operands `left` and `index` that compile
/// on their own: `.INDEX {<left>} {<index>};`, of the element type, or `WrongType` when
/// `left` cannot be indexed.
pub open spec fn element_access(old: &Compiler, new: &Compiler, left: Expression, index: Expression,
    r: Result<Types, CompilerException>) -> bool {
    &&& emitted(old, new, ".INDEX {"@ + operand_code(old, left)->0 + "} {"@ + operand_code(old, index)->0 + "};"@)
    &&& match element_type(operand_type(old, left)) {
        Some(t) => r matches Ok(u) && u@ == t,
        None => r matches Err(e) && e.exception is WrongType,
    }
}

/// Compiles `left[index]`; an index that is a name is a field or method access.
pub fn compile_expression_index(compiler: &mut Compiler, index: Index) -> (r: Result<Types, CompilerException>)
    requires
        old(compiler).wf(),
    ensures
        Compiler::kept(old(compiler), final(compiler)),
        old(compiler).fuel > 3 && !(index.index is Identifier) && operand_code(old(compiler), index.left) is Some
            && operand_code(old(compiler), index.index) is Some ==> element_access(old(compiler), final(compiler),
                index.left, index.index, r) && final(compiler).fuel == old(compiler).fuel - 4,
        old(compiler).fuel > 2 && index.index is Identifier && operand_code(old(compiler), index.left) is Some
            && operand_type(old(compiler), index.left) is Array
            ==> array_member(old(compiler), final(compiler), operand_type(old(compiler), index.left),
                index.index->Identifier_0.value@, r),
        old(compiler).fuel > 3 && index.index is Identifier && operand_code(old(compiler), index.left) is Some
            && operand_type(old(compiler), index.left) is Compound
            && no_extension(old(compiler), operand_type(old(compiler), index.left)->Compound_0, index.index->Identifier_0.value@)
            ==> field_read(old(compiler), final(compiler), index.left, operand_type(old(compiler), index.left)->Compound_1,
                index.index->Identifier_0.value@, r),
    decreases old(compiler).fuel,
{
    if !compiler.spend() {
        return Err(unknown_error());
    }
    let Index { left, index } = index;
    match index {
        Expression::Identifier(ident) => compile_expression_class_index(compiler, left, ident.value),
        other => compile_expression_index_internal(compiler, left, other),
    }
}

/// The class type that a value of type `t` has fields of: a class itself, the class (or the
/// function's class) that a function returns, or the class a user-defined name stands for.
fn find_compound(t: Types, compiler: &Compiler) -> (r: Option<Compound>)
    requires
        compiler.wf(),
    ensures
        t is Compound ==> r == Some(t->Compound_0),
    decreases t,
{
    match t {
        Types::Compound(c) => Some(c),
        Types::Function(func) => match *func.return_type {
            Types::Function(f) => find_compound(*f.return_type, compiler),
            Types::Compound(c) => Some(c),
            _ => None,
        },
        Types::Basic(BaseTypes::UserDefined(user)) => match compiler.resolve_symbol(user.as_str()) {
            Some(var) => match var._type {
                Types::Compound(c) => Some(c),
                _ => None,
            },
            None => None,
        },
        _ => None,
    }
}

/// `new` is `old` after compiling `left.field` for an array `left`: no code; `push` is the
/// built-in method that adds to an array, any other field is `UnknownField(<field>, <array type>)`.
pub open spec fn array_member(old: &Compiler, new: &Compiler, array: TypesV, field: Seq<char>, r: Result<Types, CompilerException>) -> bool {
    &&& new.code() == old.code()
    &&& if field == "push"@ {
        r matches Ok(t) && t@ == TypesV::Function(Box::new(TypesV::Void), Seq::empty(), "ADD_TO_ARRAY"@, false)
    } else {
        r matches Err(e) && e == unplaced(e.exception) && (e.exception matches CompilerExceptionCode::UnknownField(f, d)
            && f@ == field && d@ == arc_type_name(array))
    }
}

/// The position of the first of `items`, from position `from` on, named `field`.
pub open spec fn first_field(items: Seq<crate::types::ClassItemV>, field: Seq<char>, from: int) -> Option<int>
    decreases items.len() - from,
{
    if from < 0 || from >= items.len() {
        None
    } else if items[from].name == field {
        Some(from)
    } else {
        first_field(items, field, from + 1)
    }
}

/// Whether no method named `<class_name>_<field>` is in scope, as `extends` would define one
/// for a field of the type named `class_name`.
pub open spec fn no_extension(c: &Compiler, class_name: Seq<char>, field: Seq<char>) -> bool {
    let name = class_name + "_"@ + field;
    &&& !occurs_somewhere(name, "::"@)
    &&& spec_resolve(c.scopes@, c.current_scope(), name) is None
}

/// `new` is `old` after compiling `left.field` for an instance `left` of a class with the
/// fields `items`: the first field of that name is read,
/// `.INDEX { <left>} { .CONSTANT INT <position>; };`, of the field's type; a class without
/// such a field gives `UnknownField`.
pub open spec fn field_read(old: &Compiler, new: &Compiler, left: Expression, items: Seq<crate::types::ClassItemV>,
    field: Seq<char>, r: Result<Types, CompilerException>) -> bool {
    match first_field(items, field, 0) {
        Some(k) => (r matches Ok(t) && t@ == items[k].item_type) && emitted(old, new, ".INDEX { "@
            + operand_code(old, left)->0 + "} { .CONSTANT INT "@ + int_digits(items[k].index as i32 as int) + "; };"@),
        None => r matches Err(e) && e.exception is UnknownField,
    }
}

/// Compiling a name states the same of a compiler that had more steps left.
proof fn lemma_identifier_compiled_fuel(a: &Compiler, b: &Compiler, new: &Compiler, name: String,
    r: Result<Types, CompilerException>)
    requires
        *a == (Compiler { fuel: a.fuel, ..*b }),
        a.fuel <= b.fuel,
        identifier_compiled(a, new, name, r),
    ensures
        identifier_compiled(b, new, name, r),
{
    assert(crate::compiler::lookup(a, name@) == crate::compiler::lookup(b, name@));
    assert(a.code() == b.code());
    assert(Compiler::same_but_code(a, new) ==> Compiler::same_but_code(b, new));
}

/// Whether `left` is a plain name bound to an imported module.
pub open spec fn module_member(c: &Compiler, left: Expression) -> bool {
    &&& left is Identifier
    &&& resolved(c, left->Identifier_0.value@) is Some
    &&& resolved(c, left->Identifier_0.value@)->0._type is Module
}

/// Compiles `left.field`: a name in an imported module, the `push` method of arrays, a method
/// added to the value's type by `extends`, or a field of a class instance.
fn compile_expression_class_index(compiler: &mut Compiler, left: Expression, field: String) -> (r: Result<Types, CompilerException>)
    requires
        old(compiler).wf(),
    ensures
        Compiler::kept(old(compiler), final(compiler)),
        old(compiler).fuel > 1 && operand_code(old(compiler), left) is Some && operand_type(old(compiler), left) is Array
            ==> array_member(old(compiler), final(compiler), operand_type(old(compiler), left), field@, r),
        old(compiler).fuel > 2 && operand_code(old(compiler), left) is Some && operand_type(old(compiler), left) is Compound
            && no_extension(old(compiler), operand_type(old(compiler), left)->Compound_0, field@)
            ==> field_read(old(compiler), final(compiler), left, operand_type(old(compiler), left)->Compound_1, field@, r),
        old(compiler).fuel > 1 && module_member(old(compiler), left) ==> ({
            let m = resolved(old(compiler), left->Identifier_0.value@)->0._type->Module_0;
            exists|name: String| name@ == m@ + "::"@ + field@ && identifier_compiled(old(compiler), final(compiler), name, r)
        }),
    decreases old(compiler).fuel,
{
    let ghost c0 = old(compiler).code();
    let ghost array_case = old(compiler).fuel > 1 && operand_code(old(compiler), left) is Some
        && operand_type(old(compiler), left) is Array;
    let ghost items = operand_type(old(compiler), left)->Compound_1;
    let ghost field_case = old(compiler).fuel > 2 && operand_code(old(compiler), left) is Some
        && operand_type(old(compiler), left) is Compound
        && no_extension(old(compiler), operand_type(old(compiler), left)->Compound_0, field@);
    let ghost opcode = operand_code(old(compiler), left)->0;
    let ghost module_case = old(compiler).fuel > 1 && module_member(old(compiler), left);
    if !compiler.spend() {
        return Err(unknown_error());
    }
    if let Expression::Identifier(ident) = &left {
        let found = compiler.resolve_symbol(ident.value.as_str());
        proof {
            if old(compiler).fuel > 1 && module_member(old(compiler), left) {
                reveal_strlit("::");
                assert(found is Some);
                assert(found->0._type@ is Module);
                assert(found->0._type is Module);
            }
        }
        if let Some(var) = found {
            if let Types::Module(module) = var._type {
                let name = cat3(module.as_str(), "::", field.as_str());
                let ghost before = *compiler;
                let r = compiler.compile_expression(Expression::Identifier(Identifier::new(name, 0, 0)));
                proof {
                    if old(compiler).fuel > 1 {
                        lemma_identifier_compiled_fuel(&before, old(compiler), compiler, name, r);
                    }
                }
                return r;
            }
        }
    }
    compiler.drier();
    let result = compiler.compile_expression(left.duplicate());
    compiler.undrier();
    match result {
        Ok(check) => {
            if let Types::Array(_) = check {
                if str_eq(field.as_str(), "push") {
                    let parameter_types: Vec<Types> = Vec::new();
                    let void = Types::Void;
                    assert(void@ == TypesV::Void);
                    let t = Types::Function(FunctionType {
                        return_type: Box::new(void),
                        parameter_types,
                        reference: owned("ADD_TO_ARRAY"),
                        is_method: false,
                    });
                    assert(t@->Function_1 =~= Seq::<TypesV>::empty());
                    return Ok(t);
                } else {
                    let desc = check.transpile();
                    return Err(CompilerException::new(0, 0, CompilerExceptionCode::UnknownField(field, desc)));
                }
            }
            let check = match check {
                Types::Function(func) => *func.return_type,
                other => other,
            };
            let named_type = check.transpile();
            let name = cat3(named_type.as_str(), "_", field.as_str());
            proof {
                reveal_strlit("_");
            }
            if let Some(var) = compiler.resolve_symbol(name.as_str()) {
                return compile_expression_identifier(compiler, Identifier::new(var.name, 0, 0));
            }
        },
        Err(e) => {
            return Err(e);
        },
    }
    compiler.emit(".INDEX { ");
    let result = compiler.compile_expression(left);
    proof {
        if field_case && old(compiler).dry == 0 {
            assert(compiler.code() =~= c0 + (".INDEX { "@ + opcode));
        }
    }
    match result {
        Ok(success) => match find_compound(success.duplicate(), compiler) {
            Some(Compound(name, fields)) => {
                let ghost fields_view = Types::Compound(Compound(name, fields))@->Compound_1;
                proof {
                    if field_case {
                        assert(fields_view =~= items);
                    }
                }
                let mut i: usize = 0;
                while i < fields.len()
                    invariant
                        Compiler::kept(old(compiler), compiler),
                        old(compiler).wf(),
                        !array_case,
                        !module_case,
                        module_case == (old(compiler).fuel > 1 && module_member(old(compiler), left)),
                        array_case == (old(compiler).fuel > 1 && operand_code(old(compiler), left) is Some
                            && operand_type(old(compiler), left) is Array),
                        i <= fields@.len(),
                        field_case == (old(compiler).fuel > 2 && operand_code(old(compiler), left) is Some
                            && operand_type(old(compiler), left) is Compound
                            && no_extension(old(compiler), operand_type(old(compiler), left)->Compound_0, field@)),
                        items == operand_type(old(compiler), left)->Compound_1,
                        opcode == operand_code(old(compiler), left)->0,
                        c0 == old(compiler).code(),
                        field_case ==> items.len() == fields@.len(),
                        field_case ==> forall|j: int| 0 <= j < fields@.len() ==> items[j] == (crate::types::ClassItemV {
                            name: (#[trigger] fields@[j]).name@, index: fields@[j].index, item_type: fields@[j].class_item_type@ }),
                        field_case ==> first_field(items, field@, 0) == first_field(items, field@, i as int),
                        field_case ==> emitted(old(compiler), compiler, ".INDEX { "@ + opcode),
                    decreases fields.len() - i,
                {
                    if str_eq(fields[i].name.as_str(), field.as_str()) {
                        let n = i32_to_string(#[verifier::truncate] (fields[i].index as i32));
                        let code = cat3("} { .CONSTANT INT ", n.as_str(), "; };");
                        let ghost mid = compiler.code();
                        compiler.emit(code.as_str());
                        proof {
                            if field_case {
                                assert(items[i as int].name == field@);
                                assert(first_field(items, field@, i as int) == Some(i as int));
                                if old(compiler).dry == 0 {
                                    assert(compiler.code() =~= c0 + (".INDEX { "@ + opcode + "} { .CONSTANT INT "@
                                        + int_digits(items[i as int].index as i32 as int) + "; };"@));
                                }
                            }
                        }
                        return Ok(fields[i].class_item_type.duplicate());
                    }
                    proof {
                        if field_case {
                            assert(items[i as int].name != field@);
                        }
                    }
                    i = i + 1;
                }
                Err(CompilerException::new(0, 0, CompilerExceptionCode::UnknownField(field, name)))
            },
            None => {
                let desc = success.transpile();
                Err(CompilerException::new(0, 0, CompilerExceptionCode::UnknownField(field, desc)))
            },
        },
        Err(e) => {
            let desc = e.pretty_print();
            Err(CompilerException::new(0, 0, CompilerExceptionCode::UnknownField(field, desc)))
        },
    }
}

/// Compiles an assignment to an element or field: `.ASSIGN { <target> } { <value> };`.
pub fn compile_expression_assign_index(compiler: &mut Compiler, assign: AssignIndex) -> (r: Result<Types, CompilerException>)
    requires
        old(compiler).wf(),
    ensures
        Compiler::kept(old(compiler), final(compiler)),
        r matches Ok(t) ==> t@ == TypesV::Void,
        old(compiler).fuel > 3 && !(assign.index is Identifier) && operand_code(old(compiler), assign.left) is Some
            && operand_code(old(compiler), assign.index) is Some && operand_code(old(compiler), assign.value) is Some
            ==> r is Ok && emitted(old(compiler), final(compiler), ".ASSIGN { "@ + ".INDEX {"@
                + operand_code(old(compiler), assign.left)->0 + "} {"@ + operand_code(old(compiler), assign.index)->0
                + "}; } {"@ + operand_code(old(compiler), assign.value)->0 + "};"@),
    decreases old(compiler).fuel,
{
    let ghost c0 = old(compiler).code();
    let ghost (l, i, v) = (assign.left, assign.index, assign.value);
    if !compiler.spend() {
        return Err(unknown_error());
    }
    compiler.emit(".ASSIGN { ");
    let AssignIndex { left, index, value } = assign;
    match index {
        Expression::Identifier(ident) => {
            compile_expression_class_index(compiler, left, ident.value)?;
            compiler.emit("} { ");
            compiler.compile_expression(value)?;
        },
        other => {
            compiler.emit(".INDEX {");
            compiler.compile_expression(left)?;
            compiler.emit("} {");
            compiler.compile_expression(other)?;
            compiler.emit("}; } {");
            compiler.compile_expression(value)?;
        },
    }
    compiler.emit("};");
    proof {
        if old(compiler).dry == 0 && old(compiler).fuel > 3 && !(i is Identifier) && operand_code(old(compiler), l) is Some
            && operand_code(old(compiler), i) is Some && operand_code(old(compiler), v) is Some {
            assert(compiler.code() =~= c0 + (".ASSIGN { "@ + ".INDEX {"@ + operand_code(old(compiler), l)->0 + "} {"@
                + operand_code(old(compiler), i)->0 + "}; } {"@ + operand_code(old(compiler), v)->0 + "};"@));
        }
    }
    Ok(Types::Void)
}

/// Compiles `left[index]` for an array (the element type) or a string (a string); other
/// values fail with `WrongType`.
fn compile_expression_index_internal(compiler: &mut Compiler, left: Expression, index: Expression) -> (r: Result<Types, CompilerException>)
    requires
        old(compiler).wf(),
    ensures
        Compiler::kept(old(compiler), final(compiler)),
        old(compiler).fuel > 2 && operand_code(old(compiler), left) is Some && operand_code(old(compiler), index) is Some
            ==> element_access(old(compiler), final(compiler), left, index, r) && final(compiler).fuel == old(compiler).fuel - 3,
    decreases old(compiler).fuel,
{
    let ghost c0 = old(compiler).code();
    if !compiler.spend() {
        return Err(unknown_error());
    }
    compiler.emit(".INDEX {");
    let ghost l = left;
    let ghost i = index;
    let result = compiler.compile_expression(left);
    compiler.emit("} {");
    compiler.compile_expression(index)?;
    compiler.emit("};");
    proof {
        if old(compiler).dry == 0 && old(compiler).fuel > 2 && operand_code(old(compiler), l) is Some
            && operand_code(old(compiler), i) is Some {
            assert(compiler.code() =~= c0 + (".INDEX {"@ + operand_code(old(compiler), l)->0 + "} {"@
                + operand_code(old(compiler), i)->0 + "};"@));
        }
    }
    match result {
        Ok(Types::Array(value_type)) => Ok(*value_type),
        Ok(Types::Basic(BaseTypes::String)) => Ok(Types::Basic(BaseTypes::String)),
        Ok(t) => {
            let desc = t.transpile();
            Err(CompilerException::new(0, 0, CompilerExceptionCode::WrongType(desc, owned("Expected a string or array"))))
        },
        Err(_) => Err(unknown_error()),
    }
}

/// Compiles `left.slice(begin, end)`:
/// `.SLICE { <left>} { <begin>} { .SUBTRACT { <end> .CONSTANT INT 1; }; };`. Only arrays and
/// strings can be sliced (`WrongType` otherwise); the slice has the type of `left`.
pub fn compile_expression_slice(compiler: &mut Compiler, slice: Slice) -> (r: Result<Types, CompilerException>)
    requires
        old(compiler).wf(),
    ensures
        Compiler::kept(old(compiler), final(compiler)),
        r matches Ok(t) ==> (t@ is Array || t@ == TypesV::Basic(BaseTypesV::String) || t@ == TypesV::Void),
        old(compiler).fuel > 3 && operand_code(old(compiler), *slice.left) is Some
            && operand_code(old(compiler), *slice.begin) is Some && operand_code(old(compiler), *slice.end) is Some
            ==> match element_type(operand_type(old(compiler), *slice.left)) {
                Some(_) => (r matches Ok(t) && t@ == operand_type(old(compiler), *slice.left))
                    && emitted(old(compiler), final(compiler), ".SLICE { "@ + operand_code(old(compiler), *slice.left)->0
                        + "} { "@ + operand_code(old(compiler), *slice.begin)->0 + "} { .SUBTRACT { "@
                        + operand_code(old(compiler), *slice.end)->0 + " .CONSTANT INT 1; }; };"@),
                None => (r matches Err(e) && e == unplaced(e.exception) && (e.exception matches CompilerExceptionCode::WrongType(g, x)
                    && g@ == arc_type_name(operand_type(old(compiler), *slice.left)) && x@ == "Expected a string or array"@))
                    && emitted(old(compiler), final(compiler), ".SLICE { "@ + operand_code(old(compiler), *slice.left)->0 + "} { "@),
            },
    decreases old(compiler).fuel,
{
    let ghost c0 = old(compiler).code();
    if !compiler.spend() {
        return Err(unknown_error());
    }
    compiler.emit(".SLICE { ");
    let Slice { left, begin, end } = slice;
    let ghost (l, b, e) = (*left, *begin, *end);
    let result = compiler.compile_expression(*left);
    compiler.emit("} { ");
    let mut slice_type = Types::Void;
    if let Ok(var) = result {
        match var {
            Types::Array(t) => {
                slice_type = Types::Array(t);
            },
            Types::Basic(BaseTypes::String) => {
                slice_type = Types::Basic(BaseTypes::String);
            },
            other => {
                let desc = other.transpile();
                proof {
                    if old(compiler).dry == 0 && old(compiler).fuel > 3 && operand_code(old(compiler), l) is Some {
                        assert(compiler.code() =~= c0 + (".SLICE { "@ + operand_code(old(compiler), l)->0 + "} { "@));
                    }
                }
                return Err(CompilerException::new(0, 0, CompilerExceptionCode::WrongType(desc, owned("Expected a string or array"))));
            },
        }
    }
    compiler.compile_expression(*begin)?;
    compiler.emit("} { .SUBTRACT { ");
    compiler.compile_expression(*end)?;
    compiler.emit(" .CONSTANT INT 1; }; };");
    proof {
        if old(compiler).dry == 0 && old(compiler).fuel > 3 && operand_code(old(compiler), l) is Some
            && operand_code(old(compiler), b) is Some && operand_code(old(compiler), e) is Some {
            assert(compiler.code() =~= c0 + (".SLICE { "@ + operand_code(old(compiler), l)->0
                + "} { "@ + operand_code(old(compiler), b)->0 + "} { .SUBTRACT { "@
                + operand_code(old(compiler), e)->0 + " .CONSTANT INT 1; }; };"@));
        }
    }
    Ok(slice_type)
}

/// The function that a call names in an imported library: `lib::name` for a callee
/// `lib.name` whose `lib` is imported, or the text of a string callee when the empty name is
/// imported. `None` for any other callee.
pub open spec fn library_callee(imports: Seq<String>, callee: Expression) -> Option<Seq<char>> {
    match callee {
        Expression::String(namespace) => {
            if exists|i: int| 0 <= i < imports.len() && (#[trigger] imports[i])@ == ""@ {
                Some(namespace.value@)
            } else {
                None
            }
        },
        Expression::Index(a) => match a.left {
            Expression::Identifier(library) => match a.index {
                Expression::Identifier(name) => {
                    if exists|i: int| 0 <= i < imports.len() && (#[trigger] imports[i])@ == library.value@ {
                        Some(library.value@ + "::"@ + name.value@)
                    } else {
                        None
                    }
                },
                _ => None,
            },
            _ => None,
        },
        _ => None,
    }
}

/// Whether every expression of `args` is an operand that compiles on its own.
pub open spec fn operand_args(c: &Compiler, args: Seq<Expression>) -> bool {
    operand_args_in(c.scopes@, c.current_scope(), args)
}

/// The code of such operands compiled one after the other.
pub open spec fn args_code(c: &Compiler, args: Seq<Expression>) -> Seq<char> {
    args_code_in(c.scopes@, c.current_scope(), args)
}

/// `operand_args` with the names seen from scope `scope` of `scopes`.
pub open spec fn operand_args_in(scopes: Seq<VariableScope>, scope: int, args: Seq<Expression>) -> bool {
    forall|i: int| 0 <= i < args.len() ==> (#[trigger] operand_code_in(scopes, scope, args[i])) is Some
}

/// `args_code` with the names seen from scope `scope` of `scopes`.
pub open spec fn args_code_in(scopes: Seq<VariableScope>, scope: int, args: Seq<Expression>) -> Seq<char>
    decreases args.len(),
{
    if args.len() == 0 {
        Seq::empty()
    } else {
        args_code_in(scopes, scope, args.drop_last()) + operand_code_in(scopes, scope, args.last())->0
    }
}

/// Compiles each argument in order. Operands that compile on their own give their code one
/// after the other.
fn compile_arguments(compiler: &mut Compiler, args: Vec<Expression>) -> (r: Result<(), CompilerException>)
    requires
        old(compiler).wf(),
    ensures
        Compiler::kept(old(compiler), final(compiler)),
        operand_args(old(compiler), args@) && old(compiler).fuel > args@.len() ==> r is Ok
            && emitted(old(compiler), final(compiler), args_code(old(compiler), args@)),
    decreases old(compiler).fuel,
{
    let ghost orig = args@;
    let ghost n: int = args@.len() as int;
    let ghost c0 = old(compiler).code();
    if !compiler.spend() {
        return Err(unknown_error());
    }
    proof {
        assert(c0 + args_code(old(compiler), orig.take(0)) =~= c0) by {
            assert(orig.take(0).len() == 0);
        }
    }
    let mut rest = crate::compiler::reversed(args);
    while rest.len() > 0
        invariant
            Compiler::kept(old(compiler), compiler),
            old(compiler).wf(),
            compiler.fuel < old(compiler).fuel,
            n == orig.len(),
            orig == args@,
            c0 == old(compiler).code(),
            rest@.len() <= n,
            forall|i: int| 0 <= i < rest@.len() ==> #[trigger] rest@[i] == orig[n - 1 - i],
            operand_args(old(compiler), orig) && old(compiler).fuel > n ==> {
                &&& emitted(old(compiler), compiler, args_code(old(compiler), orig.take(n - rest@.len())))
                &&& compiler.fuel == old(compiler).fuel - 1 - (n - rest@.len())
            },
        decreases rest.len(),
    {
        let ghost k = n - rest@.len();
        let a = rest.pop().unwrap();
        assert(a == orig[k]);
        proof {
            if operand_args(old(compiler), orig) && old(compiler).fuel > n {
                assert(operand_code(old(compiler), orig[k]) is Some);
                assert(compiler.fuel > 0);
            }
        }
        compiler.compile_expression(a)?;
        proof {
            if operand_args(old(compiler), orig) && old(compiler).fuel > n {
                assert(orig.take(k + 1).drop_last() =~= orig.take(k));
                assert(orig.take(k + 1).last() == orig[k]);
                if old(compiler).dry == 0 {
                    assert(compiler.code() =~= c0 + args_code(old(compiler), orig.take(k + 1)));
                }
            }
        }
    }
    proof {
        if operand_args(old(compiler), orig) && old(compiler).fuel > n {
            assert(orig.take(n) =~= orig);
        }
    }
    Ok(())
}

/// Position of the first class item with this name.
fn find_item(items: &Vec<ClassItemType>, name: &str) -> (r: Option<usize>)
    ensures
        r matches Some(k) ==> k < items@.len() && items@[k as int].name@ == name@
            && forall|j: int| 0 <= j < k ==> (#[trigger] items@[j]).name@ != name@,
        r is None ==> forall|j: int| 0 <= j < items@.len() ==> (#[trigger] items@[j]).name@ != name@,
{
    let mut i: usize = 0;
    while i < items.len()
        invariant
            i <= items.len(),
            forall|j: int| 0 <= j < i ==> (#[trigger] items@[j]).name@ != name@,
        decreases items.len() - i,
    {
        if str_eq(items[i].name.as_str(), name) {
            return Some(i);
        }
        i = i + 1;
    }
    None
}

/// Whether every field of a class has a literal value and none is named `constructor`.
pub open spec fn plain_class(items: Seq<ClassItemType>) -> bool {
    forall|i: int| 0 <= i < items.len() ==> literal_value((#[trigger] items[i]).value)
        && items[i].name@ != "constructor"@
}

/// The code of the values of class items, one after the other.
pub open spec fn item_values_code(items: Seq<ClassItemType>) -> Seq<char>
    decreases items.len(),
{
    if items.len() == 0 {
        Seq::empty()
    } else {
        item_values_code(items.drop_last()) + literal_code(items.last().value)->0
    }
}

/// A copy of a class that keeps the names and literal values of its fields is as plain and has
/// the same value code.
proof fn lemma_copied_items(a: Seq<ClassItemType>, b: Seq<ClassItemType>)
    requires
        plain_class(a),
        b.len() == a.len(),
        forall|i: int| 0 <= i < a.len() ==> (#[trigger] b[i]).name@ == a[i].name@
            && (literal_value(a[i].value) ==> b[i].value == a[i].value),
    ensures
        plain_class(b),
        item_values_code(b) == item_values_code(a),
    decreases a.len(),
{
    assert forall|i: int| 0 <= i < b.len() implies literal_value((#[trigger] b[i]).value) && b[i].name@ != "constructor"@ by {
        assert(literal_value(a[i].value));
    }
    if a.len() > 0 {
        assert forall|i: int| 0 <= i < a.drop_last().len() implies literal_value((#[trigger] a.drop_last()[i]).value)
            && a.drop_last()[i].name@ != "constructor"@ by {
            assert(a.drop_last()[i] == a[i]);
        }
        assert forall|i: int| 0 <= i < a.drop_last().len() implies (#[trigger] b.drop_last()[i]).name@ == a.drop_last()[i].name@
            && (literal_value(a.drop_last()[i].value) ==> b.drop_last()[i].value == a.drop_last()[i].value) by {
            assert(a.drop_last()[i] == a[i]);
            assert(b.drop_last()[i] == b[i]);
        }
        lemma_copied_items(a.drop_last(), b.drop_last());
        assert(literal_value(a[a.len() - 1].value));
    }
}

/// The code of instantiating the class defined as `class_name` with a function numbered `id`
/// that stores the instance, made of the values `values`, in variable `holder` and returns it.
pub open spec fn instantiation_code(id: i32, class_name: Seq<char>, holder: u32, values: Seq<char>) -> Seq<char> {
    ".CALL { .FUNCTION \"\" "@ + int_digits(id as int) + " "@ + class_name + " ARGUMENTS {} FREE {} THEN {"@
        + ".STORE "@ + nat_digits(holder as nat) + " { .CONSTANT "@ + class_name + " {"@ + values + "};};"@
        + ".RETURN { .LOAD VARIABLE "@ + nat_digits(holder as nat) + "; };"@ + "};} {};"@
}

/// Instantiates a class: a function is called that stores a new instance (with every field
/// compiled, methods taking `self` first) in a temporary variable, calls the `constructor`
/// method when the class has one, and returns the instance. Its type is the class.
fn compile_class_instantiation(compiler: &mut Compiler, class_type: Compound, definition: crate::compiler::variable_table::Variable, parameters: Vec<Expression>) -> (r: Result<Types, CompilerException>)
    requires
        old(compiler).wf(),
    ensures
        Compiler::kept(old(compiler), final(compiler)),
        r matches Ok(t) ==> t@ == Types::Compound(class_type)@,
        r is Ok ==> final(compiler).function_count > old(compiler).function_count,
        old(compiler).fuel > 0 && old(compiler).function_count < i32::MAX && old(compiler).variable_count == u32::MAX
            ==> r == Err::<Types, CompilerException>(unplaced(CompilerExceptionCode::TooManyLocals)),
        old(compiler).fuel > class_type.1@.len() + 1 && old(compiler).function_count < i32::MAX
            && old(compiler).variable_count < u32::MAX && plain_class(class_type.1@) ==> r is Ok
            && (old(compiler).dry == 0 ==> final(compiler).code() == old(compiler).code() + instantiation_code(
                old(compiler).function_count, variable_arc_name(definition.index, definition._type@),
                old(compiler).variable_count, item_values_code(class_type.1@))),
    decreases old(compiler).fuel,
{
    let ghost c0 = old(compiler).code();
    let ghost plain = old(compiler).fuel > class_type.1@.len() + 1 && old(compiler).function_count < i32::MAX
        && old(compiler).variable_count < u32::MAX && plain_class(class_type.1@);
    if !compiler.spend() {
        return Err(unknown_error());
    }
    if compiler.function_count == i32::MAX {
        return Err(unknown_error());
    }
    let Compound(name, values) = class_type.duplicate();
    let fc = i32_to_string(compiler.function_count);
    let dt = definition.transpile();
    let code = cat5(".CALL { .FUNCTION \"\" ", fc.as_str(), " ", dt.as_str(), " ARGUMENTS {} FREE {} THEN {");
    compiler.emit(code.as_str());
    compiler.function_count = compiler.function_count + 1;
    let temp_var = compiler.define_symbol(owned("temporary_class_holder"), Types::Compound(class_type.duplicate()), 0)?;
    let ti = u32_to_string(temp_var.index);
    let code = cat5(".STORE ", ti.as_str(), " { .CONSTANT ", dt.as_str(), " {");
    compiler.emit(code.as_str());
    let ghost c_store = compiler.code();
    proof {
        if plain {
            assert(class_type.1@.take(0) =~= Seq::<ClassItemType>::empty());
            assert forall|j: int| 0 <= j < values@.len() implies (#[trigger] values@[j]).value == class_type.1@[j].value
                && values@[j].name@ == class_type.1@[j].name@ by {
                assert(literal_value(class_type.1@[j].value));
            }
        }
    }
    let mut i: usize = 0;
    while i < values.len()
        invariant
            Compiler::kept(old(compiler), compiler),
            old(compiler).wf(),
            compiler.fuel < old(compiler).fuel,
            compiler.function_count > old(compiler).function_count,
            old(compiler).variable_count == u32::MAX ==> !(old(compiler).fuel > 0 && old(compiler).function_count < i32::MAX),
            i <= values@.len(),
            plain == (old(compiler).fuel > class_type.1@.len() + 1 && old(compiler).function_count < i32::MAX
                && old(compiler).variable_count < u32::MAX && plain_class(class_type.1@)),
            plain ==> old(compiler).variable_count < u32::MAX,
            plain ==> values@.len() == class_type.1@.len() && compiler.fuel == old(compiler).fuel - 1 - i
                && forall|j: int| 0 <= j < values@.len() ==> (#[trigger] values@[j]).value == class_type.1@[j].value
                    && values@[j].name@ == class_type.1@[j].name@,
            plain && old(compiler).dry == 0 ==> compiler.code() == c_store + item_values_code(class_type.1@.take(i as int)),
        decreases values.len() - i,
    {
        let ghost k = i as int;
        proof {
            if plain {
                assert(literal_value(class_type.1@[i as int].value));
            }
        }
        match &values[i].value {
            Expression::Function(func) => {
                let mut func = func.duplicate();
                func.parameters.insert(0, crate::parser::expression::Parameter {
                    identifier: Identifier::new(owned("self"), 0, 0),
                    _type: Types::Compound(class_type.duplicate()),
                });
                compiler.compile_expression(Expression::Function(func))?;
            },
            other => {
                compiler.compile_expression(other.duplicate())?;
            },
        }
        proof {
            if plain {
                let items = class_type.1@;
                assert(items.take(k + 1).drop_last() =~= items.take(k));
                assert(items.take(k + 1).last() == items[k]);
            }
        }
        i = i + 1;
    }
    compiler.emit("};};");
    let constructor = find_item(&values, "constructor");
    if let Some(c) = constructor {
        let ci = u32_to_string(values[c].index);
        let mut code = cat5(".CALL { .INDEX { .LOAD VARIABLE ", ti.as_str(), "; } { .CONSTANT INT ", ci.as_str(), "; }; } { .LOAD VARIABLE ");
        append_str(&mut code, ti.as_str());
        append_str(&mut code, "; ");
        compiler.emit(code.as_str());
        compile_arguments(compiler, parameters)?;
        compiler.emit("};");
    }
    let code = cat3(".RETURN { .LOAD VARIABLE ", ti.as_str(), "; };");
    compiler.emit(code.as_str());
    compiler.emit("};} {};");
    proof {
        if plain && old(compiler).dry == 0 {
            assert(class_type.1@.take(class_type.1@.len() as int) =~= class_type.1@);
            assert(compiler.code() =~= c0 + instantiation_code(old(compiler).function_count,
                variable_arc_name(definition.index, definition._type@), old(compiler).variable_count,
                item_values_code(class_type.1@)));
        }
    }
    Ok(Types::Compound(Compound(name, values)))
}

/// The text before the first "::" of `s` and the text after it up to the next "::" (or the
/// end), when `s` holds a "::".
fn split_path(s: &str) -> (r: Option<(String, String)>)
    ensures
        r is None <==> !occurs_somewhere(s@, "::"@),
        r matches Some((first, second)) ==> exists|k: int, e: int| #![trigger s@.subrange(0, k), s@.subrange(k + 2, e)]
            occurs_at(s@, "::"@, k) && (forall|j: int| 0 <= j < k ==> !occurs_at(s@, "::"@, j))
            && k + 2 <= e <= s@.len()
            && (occurs_at(s@, "::"@, e) || e == s@.len())
            && (forall|j: int| k + 2 <= j < e ==> !occurs_at(s@, "::"@, j))
            && first@ == s@.subrange(0, k) && second@ == s@.subrange(k + 2, e),
{
    let chars = str_to_chars(s);
    let sep: Vec<char> = vec![':', ':'];
    match find_from(chars.as_slice(), sep.as_slice(), 0) {
        Some(k) => {
            proof { reveal_strlit("::"); assert(sep@ =~= "::"@); assert(sep@.len() == 2); }
            let first = crate::text::chars_range(chars.as_slice(), 0, k);
            let total = chars.len();
            assert(k + 2 <= total);
            let start = k + 2;
            let end = match find_from(chars.as_slice(), sep.as_slice(), start) {
                Some(e) => e,
                None => chars.len(),
            };
            let second = crate::text::chars_range(chars.as_slice(), start, end);
            proof {
                let ki = k as int;
                let ei = end as int;
                assert(chars@ == s@);
                assert(occurs_at(s@, "::"@, ki));
                assert(occurs_at(s@, "::"@, ei) || ei == s@.len());
                assert(forall|j: int| 0 <= j < ki ==> !occurs_at(s@, "::"@, j));
                assert(forall|j: int| ki + 2 <= j < ei ==> !occurs_at(s@, "::"@, j));
                assert(first@ == s@.subrange(0, ki) && second@ == s@.subrange(ki + 2, ei));
            }
            Some((first, second))
        },
        None => {
            proof {
                reveal_strlit("::");
                assert(sep@ =~= "::"@);
                assert forall|j: int| !occurs_at(s@, "::"@, j) by {
                    if j >= 0 {
                        assert(!occurs_at(chars@, sep@, j));
                    }
                }
            }
            None
        },
    }
}

/// Compiles a call. Calling a class instantiates it; `"name"(..)` and `library.name(..)` call
/// into an imported native library (type `Auto`); `array.push(..)` and `array.remove(..)`
/// push and pop values; `value.len()` is the length of an array or string; a method of an
/// imported module is called by its qualified name; any other callee must be a function, and
/// the call has its return type (`CallingNonFunction` otherwise). A method gets its receiver
/// as first argument.
#[verifier::rlimit(80)]
#[verifier::spinoff_prover]
pub fn compile_expression_call(compiler: &mut Compiler, call: Call) -> (r: Result<Types, CompilerException>)
    requires
        old(compiler).wf(),
    ensures
        Compiler::kept(old(compiler), final(compiler)),
        library_callee(old(compiler).imports@, *call.identifier) is Some && operand_args(old(compiler), call.parameters@)
            && old(compiler).fuel > call.parameters@.len() + 1 ==> (r matches Ok(t) && t@ == TypesV::Auto)
            && emitted(old(compiler), final(compiler), ".CALL "@ + library_callee(old(compiler).imports@, *call.identifier)->0
                + " { "@ + args_code(old(compiler), call.parameters@) + "};"@),
        *call.identifier is Identifier && resolved(old(compiler), call.identifier->Identifier_0.value@) is Some
            && operand_args(old(compiler), call.parameters@) && old(compiler).fuel > call.parameters@.len() + 2 ==> ({
            let w = resolved(old(compiler), call.identifier->Identifier_0.value@)->0;
            match w._type@ {
                TypesV::Function(ret, _, _, _) => (r matches Ok(t) && t@ == *ret)
                    && emitted(old(compiler), final(compiler), ".CALL {"@
                        + load_code(w.parameter_id, w.function_identifier, w.index) + "} {"@
                        + args_code(old(compiler), call.parameters@) + "};"@),
                TypesV::Compound(_, _) => r matches Ok(t) ==> t@ == w._type@,
                _ => true,
            }
        }),
        *call.identifier is Identifier && resolved(old(compiler), call.identifier->Identifier_0.value@) is Some
            && resolved(old(compiler), call.identifier->Identifier_0.value@)->0._type is Compound ==> ({
            let w = resolved(old(compiler), call.identifier->Identifier_0.value@)->0;
            let items = w._type->Compound_0.1@;
            old(compiler).fuel > items.len() + 2 && old(compiler).function_count < i32::MAX
                && old(compiler).variable_count < u32::MAX && plain_class(items) ==> ({
                &&& r matches Ok(t) && t@ == w._type@
                &&& old(compiler).dry == 0 ==> final(compiler).code() == old(compiler).code() + instantiation_code(
                    old(compiler).function_count, variable_arc_name(w.index, w._type@), old(compiler).variable_count,
                    item_values_code(items))
            })
        }),
        *call.identifier is Identifier && resolved(old(compiler), call.identifier->Identifier_0.value@) is Some
            && old(compiler).fuel > 1 ==> ({
            let w = resolved(old(compiler), call.identifier->Identifier_0.value@)->0;
            !(w._type@ is Function) && !(w._type@ is Compound) ==> (r matches Err(e) && e == unplaced(e.exception)
                && (e.exception matches CompilerExceptionCode::CallingNonFunction(d) && d@ == arc_type_name(w._type@)))
                && emitted(old(compiler), final(compiler), ".CALL {"@ + load_code(w.parameter_id, w.function_identifier, w.index))
        }),
        length_call(old(compiler), call) ==> match element_type(operand_type(old(compiler), call.identifier->Index_0.left)) {
            Some(_) => (r matches Ok(t) && t@ == TypesV::Basic(BaseTypesV::Integer))
                && emitted(old(compiler), final(compiler), ".LENGTH { "@
                    + operand_code(old(compiler), call.identifier->Index_0.left)->0 + "};"@),
            None => wrong_length_target(old(compiler), final(compiler), call.identifier->Index_0.left, r),
        },
        array_update_call(old(compiler), call) ==> ({
            let target = call.identifier->Index_0.left;
            let opening = array_update_opening(call.identifier->Index_0.index->Identifier_0.value@)->0;
            &&& r matches Ok(t) && t@ == operand_type(old(compiler), target)
            &&& emitted(old(compiler), final(compiler), updates_code(old(compiler), opening, target, call.parameters@))
        }),
    decreases old(compiler).fuel,
{
    let ghost c0 = old(compiler).code();
    let ghost upd = array_update_call(old(compiler), call);
    let ghost len_case = length_call(old(compiler), call);
    let ghost target = call.identifier->Index_0.left;
    let ghost opening = array_update_opening(call.identifier->Index_0.index->Identifier_0.value@)->0;
    let ghost callee = library_callee(old(compiler).imports@, *call.identifier);
    let ghost args = call.parameters@;
    let ghost named = if *call.identifier is Identifier { resolved(old(compiler), call.identifier->Identifier_0.value@) } else { None };
    if !compiler.spend() {
        return Err(unknown_error());
    }
    let Call { identifier, parameters } = call;
    let identifier = *identifier;
    match &identifier {
        Expression::Identifier(i) => {
            let class = compiler.get_compound_type(i.value.as_str());
            if let Some(Types::Compound(class_type)) = class {
                if let Some(definition) = compiler.resolve_symbol(i.value.as_str()) {
                    proof {
                        if named is Some && named->0._type is Compound && plain_class(named->0._type->Compound_0.1@) {
                            let w = named->0;
                            lemma_copied_items(w._type->Compound_0.1@, class_type.1@);
                        }
                    }
                    return compile_class_instantiation(compiler, class_type, definition, parameters);
                }
            }
        },
        Expression::String(namespace) => {
            if contains_string(&compiler.imports, "") {
                compiler.emit(".CALL ");
                compiler.emit(namespace.value.as_str());
                compiler.emit(" { ");
                compile_arguments(compiler, parameters)?;
                compiler.emit("};");
                proof {
                    if old(compiler).dry == 0 && callee is Some && operand_args(old(compiler), args) && old(compiler).fuel > args.len() + 1 {
                        assert(compiler.code() =~= c0 + (".CALL "@ + callee->0 + " { "@ + args_code(old(compiler), args) + "};"@));
                    }
                }
                return Ok(Types::Auto);
            }
        },
        _ => {},
    }
    if let Expression::Index(a) = &identifier {
        if let Expression::Identifier(ident) = &a.index {
            if let Expression::Identifier(library) = &a.left {
                if contains_string(&compiler.imports, library.value.as_str()) {
                    compiler.emit(".CALL ");
                    let qualified = cat3(library.value.as_str(), "::", ident.value.as_str());
                    compiler.emit(qualified.as_str());
                    compiler.emit(" { ");
                    compile_arguments(compiler, parameters)?;
                    compiler.emit("};");
                    proof {
                        if old(compiler).dry == 0 && callee is Some && operand_args(old(compiler), args) && old(compiler).fuel > args.len() + 1 {
                            assert(compiler.code() =~= c0 + (".CALL "@ + callee->0 + " { "@ + args_code(old(compiler), args) + "};"@));
                        }
                    }
                    return Ok(Types::Auto);
                }
            }
            compiler.drier();
            let result = compiler.compile_expression(a.left.duplicate());
            compiler.undrier();
            proof {
                reveal_strlit("push");
                reveal_strlit("remove");
                reveal_strlit("len");
            }
            if let Ok(succ) = result {
                let is_push = str_eq(ident.value.as_str(), "push");
                let is_remove = str_eq(ident.value.as_str(), "remove");
                if is_push || is_remove {
                    let opening = if is_push { ".PUSH {" } else { ".POP {" };
                    proof {
                        reveal_strlit(".PUSH {");
                        reveal_strlit(".POP {");
                        reveal_strlit("push");
                        reveal_strlit("remove");
                        reveal_strlit("len");
                        assert("push"@.len() == 4 && "remove"@.len() == 6 && "len"@.len() == 3);
                        assert(ident.value@ == "push"@ || ident.value@ == "remove"@);
                        assert(ident.value@ != "len"@);
                        assert(!len_case);
                    }
                    compile_array_updates(compiler, &a.left, &parameters, opening)?;
                    proof {
                        if upd && old(compiler).dry == 0 {
                            assert(compiler.code() =~= c0 + updates_code(old(compiler), opening@, target, args));
                        }
                    }
                    return Ok(succ);
                }
            }
        }
    }
    let mut index: Option<String> = None;
    let mut self_reference: Option<Expression> = None;
    if let Expression::Index(i) = &identifier {
        self_reference = Some(i.left.duplicate());
        if let Expression::Identifier(ident) = &i.index {
            index = Some(ident.value.clone());
        }
    }
    if let Some(name) = &index {
        if str_eq(name.as_str(), "len") {
            if let Some(sr) = &self_reference {
                let result = compile_length(compiler, sr);
                proof {
                    if len_case && old(compiler).dry == 0 && element_type(operand_type(old(compiler), target)) is Some {
                        assert(compiler.code() =~= c0 + (".LENGTH { "@ + operand_code(old(compiler), target)->0 + "};"@));
                    }
                }
                return result;
            }
        }
    }
    if let Some(sr) = &self_reference {
        compiler.drier();
        let result = compiler.compile_expression(sr.duplicate());
        compiler.undrier();
        if let Ok(Types::Module(module)) = result {
            return match &index {
                Some(name) => {
                    let callee = cat3(module.as_str(), "::", name.as_str());
                    compile_expression_call(compiler, Call {
                        identifier: Box::new(Expression::Identifier(Identifier::new(callee, 0, 0))),
                        parameters,
                    })
                },
                None => Err(unknown_error()),
            };
        }
    }
    compiler.emit(".CALL {");
    let mut method_type: Option<Types> = None;
    if let Expression::String(namespace) = &identifier {
        if let Some((name, method)) = split_path(namespace.value.as_str()) {
            let t = compiler.compile_expression(Expression::Index(Box::new(Index {
                left: Expression::Identifier(Identifier::new(name.clone(), 0, 0)),
                index: Expression::Identifier(Identifier::new(method, 0, 0)),
            })))?;
            if let Types::Function(func) = &t {
                if func.is_method {
                    self_reference = Some(Expression::Identifier(Identifier::new(name, 0, 0)));
                }
            }
            method_type = Some(t);
        }
    }
    let method_type = match method_type {
        Some(t) => t,
        None => {
            let t = compiler.compile_expression(identifier)?;
            match t {
                Types::Function(func) => *func.return_type,
                other => {
                    let desc = other.transpile();
                    proof {
                        if old(compiler).dry == 0 && named is Some && old(compiler).fuel > 1 {
                            let w = named->0;
                            assert(compiler.code() =~= c0 + (".CALL {"@ + load_code(w.parameter_id, w.function_identifier, w.index)));
                        }
                    }
                    return Err(CompilerException::new(0, 0, CompilerExceptionCode::CallingNonFunction(desc)));
                },
            }
        },
    };
    compiler.emit("} {");
    if let Some(sr) = self_reference {
        compiler.compile_expression(sr)?;
    }
    compile_arguments(compiler, parameters)?;
    compiler.emit("};");
    proof {
        if old(compiler).dry == 0 && named is Some && operand_args(old(compiler), args) && old(compiler).fuel > args.len() + 2 {
            let w = named->0;
            assert(compiler.code() =~= c0 + (".CALL {"@ + load_code(w.parameter_id, w.function_identifier, w.index)
                + "} {"@ + args_code(old(compiler), args) + "};"@));
        }
    }
    Ok(method_type)
}

/// Applies `opening` (`.PUSH {` or `.POP {`) to the array `target` with each value in turn:
/// `<opening><target>} { <value>};`.
fn compile_array_updates(compiler: &mut Compiler, target: &Expression, values: &Vec<Expression>, opening: &str)
    -> (r: Result<(), CompilerException>)
    requires
        old(compiler).wf(),
    ensures
        Compiler::kept(old(compiler), final(compiler)),
        operand_code(old(compiler), *target) is Some && operand_args(old(compiler), values@)
            && old(compiler).fuel > 2 * values@.len() ==> r is Ok
            && emitted(old(compiler), final(compiler), updates_code(old(compiler), opening@, *target, values@)),
    decreases old(compiler).fuel,
{
    let ghost c0 = old(compiler).code();
    let ghost n: int = values@.len() as int;
    let ghost ok = operand_code(old(compiler), *target) is Some && operand_args(old(compiler), values@)
        && old(compiler).fuel > 2 * values@.len();
    if !compiler.spend() {
        return Err(unknown_error());
    }
    proof {
        if ok {
            assert(c0 + updates_code(old(compiler), opening@, *target, values@.take(0)) =~= c0);
        }
    }
    let mut k: usize = 0;
    while k < values.len()
        invariant
            Compiler::kept(old(compiler), compiler),
            old(compiler).wf(),
            compiler.fuel < old(compiler).fuel,
            k <= values@.len(),
            n == values@.len(),
            c0 == old(compiler).code(),
            ok == (operand_code(old(compiler), *target) is Some && operand_args(old(compiler), values@)
                && old(compiler).fuel > 2 * values@.len()),
            ok ==> emitted(old(compiler), compiler, updates_code(old(compiler), opening@, *target, values@.take(k as int)))
                && compiler.fuel == old(compiler).fuel - 1 - 2 * k,
        decreases values.len() - k,
    {
        compiler.emit(opening);
        proof {
            if ok {
                assert(operand_code(old(compiler), values@[k as int]) is Some);
            }
        }
        compiler.compile_expression(target.duplicate())?;
        compiler.emit("} { ");
        compiler.compile_expression(values[k].duplicate())?;
        compiler.emit("};");
        proof {
            if ok {
                assert(values@.take(k + 1).drop_last() =~= values@.take(k as int));
                assert(values@.take(k + 1).last() == values@[k as int]);
                if old(compiler).dry == 0 {
                    assert(compiler.code() =~= c0 + updates_code(old(compiler), opening@, *target, values@.take(k + 1)));
                }
            }
        }
        k = k + 1;
    }
    proof {
        if ok {
            assert(values@.take(n) =~= values@);
        }
    }
    Ok(())
}

/// `new` is `old` after asking for the length of an operand that is neither an array nor a
/// string: `WrongType("array or string", <its type>)`, and no code.
pub open spec fn wrong_length_target(old: &Compiler, new: &Compiler, target: Expression,
    r: Result<Types, CompilerException>) -> bool {
    &&& r matches Err(e) && e == unplaced(e.exception)
        && (e.exception matches CompilerExceptionCode::WrongType(a, b)
        && a@ == "array or string"@ && b@ == arc_type_name(operand_type(old, target)))
    &&& new.code() == old.code()
}

/// The length of a string or array: `.LENGTH { <target>};`, an integer. The target is first
/// compiled dry to learn its type; another type is `WrongType`.
fn compile_length(compiler: &mut Compiler, target: &Expression) -> (r: Result<Types, CompilerException>)
    requires
        old(compiler).wf(),
    ensures
        Compiler::kept(old(compiler), final(compiler)),
        operand_code(old(compiler), *target) is Some && old(compiler).fuel > 2
            ==> match element_type(operand_type(old(compiler), *target)) {
                Some(_) => (r matches Ok(t) && t@ == TypesV::Basic(BaseTypesV::Integer))
                    && emitted(old(compiler), final(compiler), ".LENGTH { "@ + operand_code(old(compiler), *target)->0 + "};"@),
                None => wrong_length_target(old(compiler), final(compiler), *target, r),
            },
    decreases old(compiler).fuel,
{
    let ghost c0 = old(compiler).code();
    if !compiler.spend() {
        return Err(unknown_error());
    }
    compiler.drier();
    let result = compiler.compile_expression(target.duplicate());
    match result {
        Ok(t) => {
            let is_array = match &t {
                Types::Array(_) => true,
                _ => false,
            };
            if !is_array && !t.same_as(&Types::Basic(BaseTypes::String)) {
                compiler.undrier();
                let desc = t.transpile();
                return Err(CompilerException::new(0, 0, CompilerExceptionCode::WrongType(owned("array or string"), desc)));
            }
        },
        Err(e) => {
            compiler.undrier();
            return Err(e);
        },
    }
    compiler.undrier();
    compiler.emit(".LENGTH { ");
    let result = compiler.compile_expression(target.duplicate());
    compiler.emit("};");
    proof {
        if old(compiler).dry == 0 && operand_code(old(compiler), *target) is Some && old(compiler).fuel > 2 {
            assert(compiler.code() =~= c0 + (".LENGTH { "@ + operand_code(old(compiler), *target)->0 + "};"@));
        }
    }
    match result {
        Err(e) => Err(e),
        Ok(_) => Ok(Types::Basic(BaseTypes::Integer)),
    }
}

/// Whether `call` is `target.len()` on an operand `target` that is not an imported library,
/// with the steps to compile it.
pub open spec fn length_call(c: &Compiler, call: Call) -> bool {
    &&& *call.identifier is Index
    &&& call.identifier->Index_0.index is Identifier
    &&& call.identifier->Index_0.index->Identifier_0.value@ == "len"@
    &&& library_callee(c.imports@, *call.identifier) is None
    &&& operand_code(c, call.identifier->Index_0.left) is Some
    &&& c.fuel > 4
}

/// The opening of the Arc operation of a built-in array method: `push` adds, `remove`
/// takes out.
pub open spec fn array_update_opening(name: Seq<char>) -> Option<Seq<char>> {
    if name == "push"@ {
        Some(".PUSH {"@)
    } else if name == "remove"@ {
        Some(".POP {"@)
    } else {
        None
    }
}

/// Whether `call` is `target.push(values)` or `target.remove(values)` on an operand `target`
/// that is not an imported library, with values that are operands too, and with the steps to
/// compile it.
pub open spec fn array_update_call(c: &Compiler, call: Call) -> bool {
    &&& *call.identifier is Index
    &&& call.identifier->Index_0.index is Identifier
    &&& array_update_opening(call.identifier->Index_0.index->Identifier_0.value@) is Some
    &&& library_callee(c.imports@, *call.identifier) is None
    &&& operand_code(c, call.identifier->Index_0.left) is Some
    &&& operand_args(c, call.parameters@)
    &&& c.fuel > 2 * call.parameters@.len() + 3
}

/// The code that applies `opening` to the array `target` with each value in turn.
pub open spec fn updates_code(c: &Compiler, opening: Seq<char>, target: Expression, values: Seq<Expression>) -> Seq<char> {
    updates_code_in(c.scopes@, c.current_scope(), opening, target, values)
}

/// `updates_code` with the names seen from scope `scope` of `scopes`.
pub open spec fn updates_code_in(scopes: Seq<VariableScope>, scope: int, opening: Seq<char>, target: Expression,
    values: Seq<Expression>) -> Seq<char>
    decreases values.len(),
{
    if values.len() == 0 {
        Seq::empty()
    } else {
        updates_code_in(scopes, scope, opening, target, values.drop_last()) + opening
            + operand_code_in(scopes, scope, target)->0 + "} { "@ + operand_code_in(scopes, scope, values.last())->0 + "};"@
    }
}

/// The variable a plain name (one without `::`) resolves to from the current scope.
pub open spec fn resolved(c: &Compiler, name: Seq<char>) -> Option<Variable> {
    resolved_in(c.scopes@, c.current_scope(), name)
}

/// The variable a plain name resolves to from scope `scope` of `scopes`.
pub open spec fn resolved_in(scopes: Seq<VariableScope>, scope: int, name: Seq<char>) -> Option<Variable> {
    if occurs_somewhere(name, "::"@) {
        None
    } else {
        match spec_resolve(scopes, scope, name) {
            Some((s, k)) => Some(scopes[s].variables@[k]),
            None => None,
        }
    }
}

/// The type named by a parameter's type: a user-defined name must name a class
/// (`UnknownType` otherwise); other types stand for themselves.
fn resolve_user_type(compiler: &Compiler, t: &Types) -> (r: Result<Types, CompilerException>)
    requires
        compiler.wf(),
    ensures
        !(t is Basic && t->Basic_0 is UserDefined) ==> (r matches Ok(u) && u@ == t@),
{
    match t {
        Types::Basic(BaseTypes::UserDefined(name)) => match compiler.get_compound_type(name.as_str()) {
            Some(c) => Ok(c),
            None => Err(CompilerException::new(0, 0, CompilerExceptionCode::UnknownType(name.clone()))),
        },
        other => Ok(other.duplicate()),
    }
}

/// Whether `f` is an anonymous function without parameters or a declared return type, whose
/// body's code follows from its statements, with the steps to compile it.
pub open spec fn plain_function(c: &Compiler, f: crate::parser::expression::Function) -> bool {
    &&& f.name@ == ""@
    &&& f.parameters@.len() == 0
    &&& f.predefined_type is None
    &&& c.fuel > 3
    &&& c.function_count < i32::MAX
    &&& simple_block(c, f.body.statements@)
}

/// The code of an anonymous function without parameters, numbered `id`, around the code of
/// its body, before its return type is written in place of the placeholder.
pub open spec fn anonymous_function_code(id: int, body: Seq<char>) -> Seq<char> {
    ".FUNCTION \""@ + ""@ + "\" "@ + int_digits(id) + " "@ + "REPLACE_TYPE_"@ + int_digits(id)
        + " ARGUMENTS {"@ + "} FREE {} THEN "@ + body + ";"@
}

/// Whether a type name written in the code of `f` stands for itself: no variable in scope has
/// that name, nor does `f` or one of its parameters.
pub open spec fn free_type_name(c: &Compiler, f: crate::parser::expression::Function, n: Seq<char>) -> bool {
    &&& !occurs_somewhere(n, "::"@)
    &&& spec_resolve(c.scopes@, c.current_scope(), n) is None
    &&& n != f.name@
    &&& forall|j: int| 0 <= j < f.parameters@.len() ==> #[trigger] f.parameters@[j].identifier.value@ != n
}

/// Whether a block is left out but for its last statement, a literal when there is one.
pub open spec fn literal_block(s: Seq<Statement>) -> bool {
    &&& forall|i: int| 0 <= i < s.len() - 1 ==> skipped_statement(#[trigger] s[i])
    &&& s.len() > 0 ==> (s.last() is Expression && literal_code(*s.last()->Expression_0.expression) is Some)
}

/// The type of such a block: that of its last literal.
pub open spec fn literal_block_type(s: Seq<Statement>) -> TypesV {
    if s.len() == 0 {
        TypesV::Void
    } else {
        literal_type(*s.last()->Expression_0.expression)
    }
}

/// The code of such a block: its last literal is returned, in braces.
pub open spec fn literal_block_code(s: Seq<Statement>) -> Seq<char> {
    if s.len() == 0 {
        "{"@ + "}"@
    } else {
        "{"@ + ".RETURN { "@ + literal_code(*s.last()->Expression_0.expression)->0 + "};"@ + "}"@
    }
}

/// The Arc types of parameters, each followed by ';'.
pub open spec fn parameters_code(ps: Seq<crate::parser::expression::Parameter>) -> Seq<char>
    decreases ps.len(),
{
    if ps.len() == 0 {
        Seq::empty()
    } else {
        parameters_code(ps.drop_last()) + arc_type_name(ps.last()._type@) + ";"@
    }
}

/// The code of a function numbered `id` with this label, parameter types and body, before its
/// return type is written in place of the placeholder.
pub open spec fn function_text(label: Seq<char>, id: int, args: Seq<char>, body: Seq<char>) -> Seq<char> {
    ".FUNCTION \""@ + label + "\" "@ + int_digits(id) + " "@ + "REPLACE_TYPE_"@ + int_digits(id)
        + " ARGUMENTS {"@ + args + "} FREE {} THEN "@ + body + ";"@
}

/// Whether `f` has no declared return type, parameters with distinct names and types that are
/// not class names, a body whose last statement is a literal, type names that stand for
/// themselves, and the steps and counters to compile it.
pub open spec fn simple_function(c: &Compiler, f: crate::parser::expression::Function) -> bool {
    &&& f.predefined_type is None
    &&& forall|a: int, b: int| 0 <= a < b < f.parameters@.len()
        ==> #[trigger] f.parameters@[a].identifier.value@ != #[trigger] f.parameters@[b].identifier.value@
    &&& forall|j: int| 0 <= j < f.parameters@.len() ==> !((#[trigger] f.parameters@[j])._type is Basic
        && f.parameters@[j]._type->Basic_0 is UserDefined)
    &&& forall|j: int| 0 <= j < f.parameters@.len() ==> free_type_name(c, f, arc_type_name((#[trigger] f.parameters@[j])._type@))
    &&& literal_block(f.body.statements@)
    &&& free_type_name(c, f, arc_type_name(literal_block_type(f.body.statements@)))
    &&& c.fuel > 3
    &&& c.function_count < i32::MAX
    &&& c.variable_count + f.parameters@.len() + 1 < u32::MAX
}

/// Whether `n` is the name of the first parameter whose name an earlier parameter already has.
pub open spec fn first_repeated_name(ps: Seq<crate::parser::expression::Parameter>, n: Seq<char>) -> bool {
    exists|a: int, b: int| 0 <= a < b < ps.len() && #[trigger] ps[a].identifier.value@ == n
        && #[trigger] ps[b].identifier.value@ == n
        && forall|x: int, y: int| 0 <= x < y < b ==> #[trigger] ps[x].identifier.value@ != #[trigger] ps[y].identifier.value@
}

/// Whether a named function has two parameters of the same name.
pub open spec fn repeats_parameter(f: crate::parser::expression::Function) -> bool {
    &&& f.name@ != ""@
    &&& exists|a: int, b: int| 0 <= a < b < f.parameters@.len()
        && #[trigger] f.parameters@[a].identifier.value@ == #[trigger] f.parameters@[b].identifier.value@
}

/// Compiles a function literal:
/// `.FUNCTION "<name>" <id> <return type> ARGUMENTS {<parameter types>} FREE {} THEN <body>;`.
/// A named function is defined as a variable first (its parameters must have distinct names,
/// `DoubleParameterName` otherwise); the body is compiled in a new scope holding the
/// parameters, and the return type, when not given, is inferred from the body and written in
/// place of a placeholder. The result is the function's type.
#[verifier::rlimit(100)]
#[verifier::spinoff_prover]
pub fn compile_expression_function(compiler: &mut Compiler, func: crate::parser::expression::Function) -> (r: Result<Types, CompilerException>)
    requires
        old(compiler).wf(),
    ensures
        Compiler::kept(old(compiler), final(compiler)),
        r matches Ok(t) ==> t@ is Function && t@ == TypesV::Function(t@->Function_0,
            Seq::new(func.parameters@.len(), |i: int| func.parameters@[i]._type@),
            if func.name@ == ""@ { Seq::empty() } else { "local::"@ + func.name@ }, false),
        old(compiler).fuel > 0 && old(compiler).function_count < i32::MAX && repeats_parameter(func) ==> ({
            &&& r matches Err(e) && e == unplaced(e.exception) && (e.exception matches CompilerExceptionCode::DoubleParameterName(n)
                && first_repeated_name(func.parameters@, n@))
            &&& final(compiler).code() == old(compiler).code()
            &&& final(compiler).variable_count == old(compiler).variable_count
            &&& final(compiler).function_count == old(compiler).function_count + 1
        }),
        plain_function(old(compiler), func) ==> (r matches Ok(t) && t@ == TypesV::Function(
            Box::new(simple_block_type(old(compiler), func.body.statements@)), Seq::empty(), Seq::empty(), false)),
        plain_function(old(compiler), func) && old(compiler).dry == 0 ==> exists|return_name: Seq<char>|
            #[trigger] replace_all(old(compiler).code() + anonymous_function_code(old(compiler).function_count + 1,
                simple_block_code(old(compiler), func.body.statements@)),
                "REPLACE_TYPE_"@ + int_digits(old(compiler).function_count + 1), return_name) == final(compiler).code(),
        simple_function(old(compiler), func) ==> ({
            let id = old(compiler).function_count + 1;
            let label = if func.name@ == ""@ { Seq::<char>::empty() } else { "var_"@ + nat_digits(old(compiler).variable_count as nat) };
            let body = func.body.statements@;
            &&& r matches Ok(t) && t@->Function_0 == Box::new(literal_block_type(body))
            &&& old(compiler).dry == 0 ==> final(compiler).code() == replace_all(old(compiler).code()
                + function_text(label, id, parameters_code(func.parameters@), literal_block_code(body)),
                "REPLACE_TYPE_"@ + int_digits(id), arc_type_name(literal_block_type(body)))
            &&& old(compiler).scope_index < i32::MAX - 1 ==> final(compiler).scope_index == old(compiler).scope_index
        }),
    decreases old(compiler).fuel,
{
    let ghost repeats = repeats_parameter(func);
    let ghost plain = plain_function(old(compiler), func);
    let ghost sf = simple_function(old(compiler), func);
    let ghost stmts = func.body.statements@;
    let ghost fp = func.parameters@;
    let ghost fname = func.name@;
    let ghost id: int = old(compiler).function_count + 1;
    let ghost label_s = if func.name@ == ""@ { Seq::<char>::empty() } else { "var_"@ + nat_digits(old(compiler).variable_count as nat) };
    if !compiler.spend() {
        return Err(unknown_error());
    }
    if compiler.function_count == i32::MAX {
        return Err(unknown_error());
    }
    compiler.function_count = compiler.function_count + 1;
    let ghost counted = *compiler;
    let random_identifier = compiler.function_count;
    let crate::parser::expression::Function { name: func_name, parameters: func_parameters, body, predefined_type, public } = func;
    let named_fn = !str_eq(func_name.as_str(), "");
    proof {
        reveal_strlit("");
    }
    let mut named: Option<(String, String, u32)> = None;
    if named_fn {
        assert(!plain);
        let mut parameters: Vec<Parameter> = Vec::new();
        let mut i: usize = 0;
        while i < func_parameters.len()
            invariant
                i <= func_parameters.len(),
                Compiler::kept(old(compiler), compiler),
                old(compiler).wf(),
                compiler.fuel < old(compiler).fuel,
                parameters@.len() == i,
                forall|k: int| 0 <= k < i ==> (#[trigger] parameters@[k]).name@ == func_parameters@[k].identifier.value@,
                forall|a: int, b: int| 0 <= a < b < i
                    ==> #[trigger] func_parameters@[a].identifier.value@ != #[trigger] func_parameters@[b].identifier.value@,
                !plain,
                plain == plain_function(old(compiler), func),
                sf == simple_function(old(compiler), func),
                *compiler == counted,
                counted.code() == old(compiler).code() && counted.variable_count == old(compiler).variable_count
                    && counted.function_count == old(compiler).function_count + 1,
                func_parameters@ == func.parameters@,
                forall|k: int| 0 <= k < i ==> (#[trigger] parameters@[k]).parameter_type@ == func_parameters@[k]._type@,
            decreases func_parameters.len() - i,
        {
            let value = &func_parameters[i].identifier.value;
            let mut j: usize = 0;
            while j < parameters.len()
                invariant
                    j <= parameters.len(),
                    Compiler::kept(old(compiler), compiler),
                    old(compiler).wf(),
                    compiler.fuel < old(compiler).fuel,
                    i < func_parameters@.len(),
                    *value == func_parameters@[i as int].identifier.value,
                    !plain,
                    plain == plain_function(old(compiler), func),
                    forall|m: int| 0 <= m < j ==> (#[trigger] parameters@[m]).name@ != value@,
                    *compiler == counted,
                    counted.code() == old(compiler).code() && counted.variable_count == old(compiler).variable_count
                        && counted.function_count == old(compiler).function_count + 1,
                    func_parameters@ == func.parameters@,
                    parameters@.len() == i,
                    forall|k: int| 0 <= k < i ==> (#[trigger] parameters@[k]).name@ == func_parameters@[k].identifier.value@,
                    forall|a: int, b: int| 0 <= a < b < i
                        ==> #[trigger] func_parameters@[a].identifier.value@ != #[trigger] func_parameters@[b].identifier.value@,
                    sf == simple_function(old(compiler), func),
                decreases parameters.len() - j,
            {
                if str_eq(parameters[j].name.as_str(), value.as_str()) {
                    let repeated = value.clone();
                    proof {
                        let ps = func.parameters@;
                        assert(ps[j as int].identifier.value@ == repeated@);
                        assert(ps[i as int].identifier.value@ == repeated@);
                        assert(first_repeated_name(ps, repeated@));
                        assert(!sf);
                    }
                    return Err(CompilerException::new(0, 0, CompilerExceptionCode::DoubleParameterName(repeated)));
                }
                j = j + 1;
            }
            proof {
                assert forall|a: int, b: int| 0 <= a < b < i + 1
                    implies #[trigger] func_parameters@[a].identifier.value@ != #[trigger] func_parameters@[b].identifier.value@ by {
                    if b == i {
                        assert(parameters@[a].name@ != value@);
                    }
                }
            }
            parameters.push(Parameter { name: value.clone(), parameter_type: func_parameters[i]._type.duplicate() });
            i = i + 1;
        }
        assert(!repeats);
        let mut type_parameters: Vec<Types> = Vec::new();
        let mut i: usize = 0;
        while i < parameters.len()
            invariant
                i <= parameters.len(),
                Compiler::kept(old(compiler), compiler),
                old(compiler).wf(),
                compiler.fuel < old(compiler).fuel,
                !repeats,
                repeats == repeats_parameter(func),
                !plain,
                plain == plain_function(old(compiler), func),
                sf == simple_function(old(compiler), func),
                *compiler == counted,
                func_parameters@ == func.parameters@,
                parameters@.len() == func_parameters@.len(),
                forall|k: int| 0 <= k < parameters@.len() ==> (#[trigger] parameters@[k]).parameter_type@ == func_parameters@[k]._type@,
            decreases parameters.len() - i,
        {
            proof {
                if sf {
                    assert(!(func_parameters@[i as int]._type is Basic && func_parameters@[i as int]._type->Basic_0 is UserDefined));
                    assert(parameters@[i as int].parameter_type@ == func_parameters@[i as int]._type@);
                }
            }
            let param_type = resolve_user_type(compiler, &parameters[i].parameter_type)?;
            type_parameters.push(param_type);
            i = i + 1;
        }
        let function_type = Types::Function(FunctionType {
            return_type: Box::new(Types::Auto),
            parameter_types: type_parameters,
            reference: concat("local::", func_name.as_str()),
            is_method: false,
        });
        let ghost pre_define = *compiler;
        let var = compiler.define_symbol(func_name.clone(), function_type, -1)?;
        proof {
            if sf {
                let cur = pre_define.current_scope();
                crate::compiler::lemma_scope_of_bound(pre_define.symbol_scope@, pre_define.location@, pre_define.scopes@.len());
                lemma_define_target_bounds(pre_define.scopes@, cur, fname);
                assert forall|nm: Seq<char>| #[trigger] free_type_name(old(compiler), func, nm)
                    implies spec_resolve(compiler.scopes@, compiler.current_scope(), nm) is None by {
                    law_define_keeps_other_names(pre_define.scopes@, compiler.scopes@,
                        spec_define_target(pre_define.scopes@, cur, fname), fname, cur, nm);
                }
            }
        }
        let n = u32_to_string(var.index);
        named = Some((concat("var_", n.as_str()), var.name, var.index));
    }
    let label = match &named {
        Some(n) => n.0.clone(),
        None => String::new(),
    };
    let ghost start = compiler.code();
    proof {
        if plain {
            assert(start == old(compiler).code());
            assert(label@ == ""@);
        }
        if sf {
            assert(label@ == label_s);
            assert(start == old(compiler).code());
            assert(compiler.fuel == old(compiler).fuel - 1);
            assert(compiler.scope_index == old(compiler).scope_index);
            assert(compiler.variable_count <= old(compiler).variable_count + 1);
            assert(forall|nm: Seq<char>| #[trigger] free_type_name(old(compiler), func, nm)
                ==> spec_resolve(compiler.scopes@, compiler.current_scope(), nm) is None);
        }
    }
    let fc = i32_to_string(compiler.function_count);
    let code = cat5(".FUNCTION \"", label.as_str(), "\" ", fc.as_str(), " ");
    compiler.emit(code.as_str());
    let placeholder_number = i32_to_string(random_identifier);
    match &predefined_type {
        Some(predefined) => {
            let pt = predefined.transpile();
            compiler.emit(pt.as_str());
        },
        None => {
            compiler.emit("REPLACE_TYPE_");
            compiler.emit(placeholder_number.as_str());
        },
    }
    compiler.emit(" ARGUMENTS {");
    let mut parameter_types: Vec<Types> = Vec::new();
    let ghost before = *compiler;
    compiler.enter_symbol_scope();
    proof {
        crate::compiler::lemma_scope_of_bound(before.symbol_scope@, before.location@, before.scopes@.len());
        if stmts.len() > 0 && stmts.last() is Expression && *stmts.last()->Expression_0.expression is Identifier {
            law_enter_keeps_names(before.scopes@, compiler.scopes@, before.current_scope() as usize,
                stmts.last()->Expression_0.expression->Identifier_0.value@);
        }
    }
    let ghost entered = *compiler;
    proof {
        if sf {
            assert forall|nm: Seq<char>| #[trigger] free_type_name(old(compiler), func, nm)
                implies spec_resolve(entered.scopes@, entered.current_scope(), nm) is None by {
                law_enter_keeps_names(before.scopes@, entered.scopes@, before.current_scope() as usize, nm);
            }
            if old(compiler).dry == 0 {
                assert(entered.code() =~= old(compiler).code() + (".FUNCTION \""@ + label_s + "\" "@ + int_digits(id) + " "@
                    + "REPLACE_TYPE_"@ + int_digits(id) + " ARGUMENTS {"@));
            }
            assert(fp.take(0) =~= Seq::<crate::parser::expression::Parameter>::empty());
        }
    }
    assert(!repeats);
    let mut i: usize = 0;
    while i < func_parameters.len()
        invariant
            Compiler::kept(old(compiler), compiler),
            old(compiler).wf(),
            compiler.fuel < old(compiler).fuel,
            !repeats,
            repeats == repeats_parameter(func),
            plain == plain_function(old(compiler), func),
            stmts == func.body.statements@,
            func_parameters@ == func.parameters@,
            plain ==> *compiler == entered && parameter_types@.len() == 0,
            i <= func_parameters@.len(),
            parameter_types@.len() == i,
            forall|k: int| 0 <= k < i ==> (#[trigger] parameter_types@[k])@ == func_parameters@[k]._type@,
            sf == simple_function(old(compiler), func),
            fp == func.parameters@,
            sf ==> forall|nm: Seq<char>| #[trigger] free_type_name(old(compiler), func, nm)
                ==> spec_resolve(compiler.scopes@, compiler.current_scope(), nm) is None,
            sf ==> compiler.fuel == entered.fuel && compiler.scope_index == entered.scope_index
                && compiler.variable_count == entered.variable_count + i,
            sf ==> entered.variable_count + fp.len() < u32::MAX,
            sf && old(compiler).dry == 0 ==> compiler.code() == entered.code() + parameters_code(fp.take(i as int)),
        decreases func_parameters.len() - i,
    {
        let parameter = &func_parameters[i];
        proof {
            if sf {
                assert(!(fp[i as int]._type is Basic && fp[i as int]._type->Basic_0 is UserDefined));
            }
        }
        let ghost pre_def = *compiler;
        let param_type = resolve_user_type(compiler, &parameter._type)?;
        compiler.define_symbol(parameter.identifier.value.clone(), param_type, #[verifier::truncate] (i as i32))?;
        proof {
            if sf {
                let cur = pre_def.current_scope();
                let pname = fp[i as int].identifier.value@;
                crate::compiler::lemma_scope_of_bound(pre_def.symbol_scope@, pre_def.location@, pre_def.scopes@.len());
                lemma_define_target_bounds(pre_def.scopes@, cur, pname);
                assert forall|nm: Seq<char>| #[trigger] free_type_name(old(compiler), func, nm)
                    implies spec_resolve(compiler.scopes@, compiler.current_scope(), nm) is None by {
                    assert(fp[i as int].identifier.value@ != nm);
                    law_define_keeps_other_names(pre_def.scopes@, compiler.scopes@,
                        spec_define_target(pre_def.scopes@, cur, pname), pname, cur, nm);
                }
            }
        }
        let named_type = parameter.get_type();
        parameter_types.push(parameter._type.duplicate());
        let ghost pre_emit = compiler.code();
        proof {
            if sf {
                assert(free_type_name(old(compiler), func, arc_type_name(fp[i as int]._type@)));
            }
        }
        match compiler.resolve_symbol(named_type.as_str()) {
            Some(found) => {
                let t = found.transpile();
                let code = concat(t.as_str(), ";");
                compiler.emit(code.as_str());
            },
            None => {
                let code = concat(named_type.as_str(), ";");
                compiler.emit(code.as_str());
            },
        }
        proof {
            if sf && old(compiler).dry == 0 {
                assert(fp.take(i + 1).drop_last() =~= fp.take(i as int));
                assert(fp.take(i + 1).last() == fp[i as int]);
                assert(compiler.code() =~= entered.code() + parameters_code(fp.take(i + 1)));
            }
        }
        i = i + 1;
    }
    proof {
        if sf {
            assert(fp.take(fp.len() as int) =~= fp);
        }
    }
    compiler.emit("} FREE {} THEN ");
    proof {
        if plain && stmts.len() > 0 {
            assert(operand_code(compiler, *stmts.last()->Expression_0.expression)
                == operand_code(old(compiler), *stmts.last()->Expression_0.expression));
            assert(operand_type(compiler, *stmts.last()->Expression_0.expression)
                == operand_type(old(compiler), *stmts.last()->Expression_0.expression));
        }
    }
    let ghost pre_block = *compiler;
    proof {
        if plain && old(compiler).dry == 0 {
            assert(pre_block.code() =~= old(compiler).code() + (".FUNCTION \""@ + ""@ + "\" "@
                + int_digits(old(compiler).function_count + 1) + " "@ + "REPLACE_TYPE_"@
                + int_digits(old(compiler).function_count + 1) + " ARGUMENTS {"@ + "} FREE {} THEN "@));
            assert(simple_block_code(&pre_block, stmts) == simple_block_code(old(compiler), stmts));
        }
    }
    proof {
        if sf && stmts.len() > 0 {
            assert(operand_code(&pre_block, *stmts.last()->Expression_0.expression)
                == literal_code(*stmts.last()->Expression_0.expression));
        }
        if sf {
            assert(simple_block(&pre_block, stmts));
            assert(simple_block_code(&pre_block, stmts) == literal_block_code(stmts));
            assert(simple_block_type(&pre_block, stmts) == literal_block_type(stmts));
        }
    }
    let result = compiler.compile_block(body, !named_fn);
    let ghost after_block = *compiler;
    proof {
        if sf {
            crate::compiler::lemma_scope_of_bound(pre_block.symbol_scope@, pre_block.location@, pre_block.scopes@.len());
            assert forall|nm: Seq<char>| #[trigger] free_type_name(old(compiler), func, nm)
                implies spec_resolve(after_block.scopes@, after_block.current_scope(), nm) is None by {
                crate::compiler::variable_table::lemma_added_scope_keeps_names(pre_block.scopes@, after_block.scopes@,
                    pre_block.current_scope(), nm);
            }
        }
    }
    compiler.emit(";");
    proof {
        if plain && old(compiler).dry == 0 {
            assert(compiler.code() =~= old(compiler).code() + anonymous_function_code(old(compiler).function_count + 1,
                simple_block_code(old(compiler), stmts)));
        }
    }
    let return_type = result?;
    let return_text = return_type.transpile();
    let return_name = match compiler.resolve_symbol(return_text.as_str()) {
        Some(var) => var.transpile(),
        None => return_text,
    };
    let placeholder = concat("REPLACE_TYPE_", placeholder_number.as_str());
    proof {
        reveal_strlit("REPLACE_TYPE_");
    }
    let ghost rn = return_name@;
    let ghost pre_replace = compiler.code();
    proof {
        if sf {
            assert(free_type_name(old(compiler), func, arc_type_name(literal_block_type(stmts))));
            assert(rn == arc_type_name(literal_block_type(stmts)));
            if old(compiler).dry == 0 {
                assert(pre_replace =~= old(compiler).code() + function_text(label_s, id, parameters_code(fp), literal_block_code(stmts)));
            }
        }
    }
    compiler.replace_at_current_function(placeholder, return_name);
    proof {
        if plain && old(compiler).dry == 0 {
            assert(placeholder@ == "REPLACE_TYPE_"@ + int_digits(old(compiler).function_count + 1));
            assert(replace_all(old(compiler).code() + anonymous_function_code(old(compiler).function_count + 1,
                simple_block_code(old(compiler), stmts)), "REPLACE_TYPE_"@ + int_digits(old(compiler).function_count + 1), rn)
                == compiler.code());
        }
    }
    let function_type = Types::Function(FunctionType {
        return_type: Box::new(return_type),
        parameter_types,
        reference: if named_fn { concat("local::", func_name.as_str()) } else { String::new() },
        is_method: false,
    });
    proof {
        reveal_strlit("local::");
        if plain {
            assert(function_type@->Function_1 =~= Seq::<TypesV>::empty());
            assert(function_type@->Function_2 =~= Seq::<char>::empty());
        }
        assert(function_type@->Function_1 =~= Seq::new(func.parameters@.len(), |i: int| func.parameters@[i]._type@));
    }
    compiler.exit_symbol_scope();
    if let Some((_, vname, vindex)) = named {
        if let Some((s, k)) = compiler.get_symbol_mutable(vindex, vname.as_str(), None) {
            compiler.set_symbol_type(s, k, function_type.duplicate());
            compiler.set_symbol_public(s, k, public);
        }
    }
    Ok(function_type)
}

/// Puts a class item in the list: in place of the item of the same name (keeping that
/// item's position), or at the end.
fn place_item(items: &mut Vec<ClassItemType>, replace: Option<usize>, item: ClassItemType)
    requires
        replace matches Some(k) ==> k < old(items)@.len(),
    ensures
        replace matches Some(k) ==> final(items)@ == old(items)@.update(k as int,
            ClassItemType { index: old(items)@[k as int].index, ..item }),
        replace is None ==> final(items)@ == old(items)@.push(item),
{
    let mut item = item;
    match replace {
        Some(k) => {
            item.index = items[k].index;
            items.set(k, item);
        },
        None => {
            items.push(item);
        },
    }
}

/// Whether every member of a class is a method or a field with a literal value.
pub open spec fn plain_members(fields: Seq<crate::parser::statement::ClassField>) -> bool {
    forall|i: int| 0 <= i < fields.len() ==> match (#[trigger] fields[i]).item {
        ClassItem::Property(e) => literal_value(*e.expression),
        ClassItem::Method(_) => true,
        ClassItem::Lazy(_) => false,
    }
}

/// The code a class member adds to the class: the type of the field's value, or the
/// method's return type, and ';'.
pub open spec fn member_code(item: ClassItem) -> Seq<char> {
    match item {
        ClassItem::Property(e) => arc_type_name(literal_type(*e.expression)) + ";"@,
        ClassItem::Method(m) => arc_type_name(m.return_type@) + ";"@,
        ClassItem::Lazy(_) => Seq::empty(),
    }
}

/// The code of the members of a class, in order.
pub open spec fn members_code(fields: Seq<crate::parser::statement::ClassField>) -> Seq<char>
    decreases fields.len(),
{
    if fields.len() == 0 {
        Seq::empty()
    } else {
        members_code(fields.drop_last()) + member_code(fields.last().item)
    }
}

/// Whether every member of a class is a method or a field with a literal value.
pub open spec fn literal_fields(fields: Seq<crate::parser::statement::ClassField>) -> bool {
    forall|i: int| 0 <= i < fields.len() ==> ((#[trigger] fields[i]).item matches ClassItem::Property(e)
        && literal_value(*e.expression)) || fields[i].item is Method
}

/// The type of such a member: that of a field's literal value; a method's is a method type
/// with its return type and the types of its arguments.
pub open spec fn member_type(item: ClassItem) -> TypesV {
    match item {
        ClassItem::Property(e) => literal_type(*e.expression),
        ClassItem::Method(m) => TypesV::Function(Box::new(m.return_type@),
            Seq::new(m.arguments@.len(), |i: int| m.arguments@[i]._type@), Seq::empty(), true),
        ClassItem::Lazy(t) => t@,
    }
}

/// The members of a class after placing a member: it replaces the first member of its name,
/// keeping that member's position, or is added at the end.
pub open spec fn place_member(items: Seq<crate::types::ClassItemV>, name: Seq<char>, index: u32, t: TypesV)
    -> Seq<crate::types::ClassItemV> {
    match first_field(items, name, 0) {
        Some(k) => items.update(k, crate::types::ClassItemV { name, index: items[k].index, item_type: t }),
        None => items.push(crate::types::ClassItemV { name, index, item_type: t }),
    }
}

/// The members of a class after placing its members in turn, each with its type.
pub open spec fn placed_fields(items: Seq<crate::types::ClassItemV>, fields: Seq<crate::parser::statement::ClassField>)
    -> Seq<crate::types::ClassItemV>
    decreases fields.len(),
{
    if fields.len() == 0 {
        items
    } else {
        let f = fields.last();
        place_member(placed_fields(items, fields.drop_last()), f.name@, f.index, member_type(f.item))
    }
}

/// The members a class inherits from the class `name` stands for (none when it names no class).
pub open spec fn inherited_items(c: &Compiler, name: Seq<char>) -> Seq<crate::types::ClassItemV> {
    match resolved(c, name) {
        Some(w) => match w._type@ {
            TypesV::Compound(_, items) => items,
            _ => Seq::empty(),
        },
        None => Seq::empty(),
    }
}

/// `items` holds, in order, the members `p`.
pub open spec fn items_are(items: Seq<ClassItemType>, p: Seq<crate::types::ClassItemV>) -> bool {
    &&& items.len() == p.len()
    &&& forall|j: int| 0 <= j < p.len() ==> (#[trigger] items[j]).name@ == p[j].name && items[j].index == p[j].index
        && items[j].class_item_type@ == p[j].item_type
}

/// The first member of a name, found by scanning the items.
proof fn lemma_first_field_at(items: Seq<crate::types::ClassItemV>, name: Seq<char>, from: int, k: int)
    requires
        0 <= from <= k,
        k <= items.len(),
        forall|j: int| from <= j < k ==> (#[trigger] items[j]).name != name,
        k < items.len() ==> items[k].name == name,
    ensures
        first_field(items, name, from) == (if k < items.len() { Some(k) } else { None::<int> }),
    decreases k - from,
{
    if from < k {
        lemma_first_field_at(items, name, from + 1, k);
    }
}

/// Compiles a class: `.COMPOUND "<class>" { <field types> };`. The class starts with the
/// fields of the class it inherits from; each field, method or typed field then replaces the
/// inherited one of the same name or is added. The class's variable gets the resulting type.
pub fn compile_class_statement(compiler: &mut Compiler, class: Class) -> (r: Result<Types, CompilerException>)
    requires
        old(compiler).wf(),
    ensures
        Compiler::kept(old(compiler), final(compiler)),
        r matches Ok(t) ==> t@ == TypesV::Void,
        old(compiler).fuel > 0 && old(compiler).variable_count == u32::MAX
            ==> r == Err::<Types, CompilerException>(unplaced(CompilerExceptionCode::TooManyLocals)),
        r is Ok && old(compiler).dry == 0 ==> exists|fields: Seq<char>| final(compiler).code() == old(compiler).code()
            + class_opening(old(compiler).variable_count) + fields + "};"@,
        old(compiler).fuel > class.values@.len() + 1 && old(compiler).variable_count < u32::MAX
            && plain_members(class.values@) ==> r is Ok && (old(compiler).dry == 0 ==> final(compiler).code()
                == old(compiler).code() + class_opening(old(compiler).variable_count) + members_code(class.values@) + "};"@),
        old(compiler).fuel > class.values@.len() + 1 && old(compiler).variable_count < u32::MAX
            && literal_fields(class.values@) && !is_export_name(class.name@)
            && !occurs_somewhere(class.inherits@, "::"@) && class.inherits@ != class.name@
            ==> exists|s: int, k: int| 0 <= s < final(compiler).scopes@.len() && 0 <= k < final(compiler).scopes@[s].variables@.len()
                && (#[trigger] final(compiler).scopes@[s].variables@[k]).index == old(compiler).variable_count
                && final(compiler).scopes@[s].variables@[k].name@ == class.name@
                && final(compiler).scopes@[s].variables@[k]._type@ == TypesV::Compound(class.name@,
                    placed_fields(inherited_items(old(compiler), class.inherits@), class.values@)),
    decreases old(compiler).fuel,
{
    let ghost c0 = old(compiler).code();
    let ghost orig = class.values@;
    let ghost n = orig.len();
    let ghost plain = old(compiler).fuel > class.values@.len() + 1 && old(compiler).variable_count < u32::MAX
        && plain_members(class.values@);
    let ghost fl = old(compiler).fuel > class.values@.len() + 1 && old(compiler).variable_count < u32::MAX
        && literal_fields(class.values@) && !is_export_name(class.name@)
        && !occurs_somewhere(class.inherits@, "::"@) && class.inherits@ != class.name@;
    let ghost inh = inherited_items(old(compiler), class.inherits@);
    let ghost cname = class.name@;
    proof {
        if fl {
            assert forall|i: int| 0 <= i < orig.len() implies match (#[trigger] orig[i]).item {
                ClassItem::Property(e) => literal_value(*e.expression),
                ClassItem::Method(_) => true,
                ClassItem::Lazy(_) => false,
            } by {
                assert((orig[i].item matches ClassItem::Property(e) && literal_value(*e.expression)) || orig[i].item is Method);
            }
            assert(plain);
        }
    }
    if !compiler.spend() {
        return Err(unknown_error());
    }
    let ghost pre = *compiler;
    let Class { name: class_name, values, inherits, public } = class;
    let mut items: Vec<ClassItemType> = Vec::new();
    let var = compiler.define_symbol(class_name.clone(), Types::Compound(Compound(String::new(), Vec::new())), -1)?;
    let ghost defined = *compiler;
    let ghost cur = pre.current_scope();
    proof {
        crate::compiler::lemma_scope_of_bound(pre.symbol_scope@, pre.location@, pre.scopes@.len());
    }
    let ghost k0 = pre.scopes@[cur].variables@.len() as int;
    proof {
        if fl {
            assert(spec_define_target(pre.scopes@, cur, class_name@) == cur);
            assert(defined.current_scope() == cur);
            assert(defined.scopes@[cur].variables@[k0] == defined.scopes@[cur].variables@.last());
            assert(defined.scopes@[cur].variables@[k0].index == old(compiler).variable_count);
            assert(defined.scopes@[cur].variables@[k0].name == class_name);
        }
    }
    let vt = var.transpile();
    let code = cat3(".COMPOUND \"", vt.as_str(), "\" { ");
    compiler.emit(code.as_str());
    let ghost opened = c0 + class_opening(old(compiler).variable_count);
    assert(old(compiler).dry == 0 ==> compiler.code() =~= opened);
    let found_parent = compiler.resolve_symbol(inherits.as_str());
    proof {
        if fl {
            lemma_define_target_bounds(pre.scopes@, cur, class_name@);
            law_define_keeps_other_names(pre.scopes@, defined.scopes@, cur, class_name@, cur, inherits@);
            assert(items_are(items@, Seq::empty()));
        }
    }
    if let Some(inherited) = found_parent {
        if let Types::Compound(c) = inherited._type {
            let ghost cv = Types::Compound(c)@;
            items = c.1;
            proof {
                if fl {
                    assert(inh == cv->Compound_1);
                    assert(items_are(items@, inh));
                }
            }
        } else {
            proof {
                if fl {
                    assert(inh =~= Seq::<crate::types::ClassItemV>::empty());
                }
            }
        }
    } else {
        proof {
            if fl {
                assert(inh =~= Seq::<crate::types::ClassItemV>::empty());
            }
        }
    }
    proof {
        if fl {
            assert(orig.take(0) =~= Seq::<crate::parser::statement::ClassField>::empty());
            assert(items_are(items@, placed_fields(inh, orig.take(0))));
        }
    }
    let mut values = values;
    values = crate::compiler::reversed(values);
    proof {
        if plain {
            assert(orig.take(0) =~= Seq::<crate::parser::statement::ClassField>::empty());
        }
    }
    while values.len() > 0
        invariant
            Compiler::kept(old(compiler), compiler),
            old(compiler).wf(),
            compiler.fuel < old(compiler).fuel,
            old(compiler).dry == 0 ==> opened.len() <= compiler.code().len()
                && compiler.code().take(opened.len() as int) == opened,
            old(compiler).variable_count < u32::MAX,
            values@.len() <= n,
            n == orig.len(),
            orig == class.values@,
            forall|i: int| 0 <= i < values@.len() ==> #[trigger] values@[i] == orig[n - 1 - i],
            plain == (old(compiler).fuel > orig.len() + 1 && old(compiler).variable_count < u32::MAX
                && plain_members(orig)),
            plain ==> compiler.fuel + (n - values@.len()) + 1 >= old(compiler).fuel,
            plain && old(compiler).dry == 0 ==> compiler.code() == opened + members_code(orig.take(n - values@.len())),
            fl == (old(compiler).fuel > orig.len() + 1 && old(compiler).variable_count < u32::MAX
                && literal_fields(orig) && !is_export_name(class_name@)
                && !occurs_somewhere(inherits@, "::"@) && inherits@ != class_name@),
            fl ==> plain,
            fl ==> compiler.scopes == defined.scopes && compiler.symbol_scope == defined.symbol_scope
                && compiler.location == defined.location,
            fl ==> items_are(items@, placed_fields(inh, orig.take(n - values@.len()))),
        decreases values.len(),
    {
        let ghost k = n - values@.len();
        let ghost before_item = compiler.code();
        let class_item = values.pop().unwrap();
        proof {
            if plain {
                assert(class_item == orig[k]);
            }
        }
        let crate::parser::statement::ClassField { name, index, item } = class_item;
        let replace = find_item(&items, name.as_str());
        match item {
            ClassItem::Property(property) => {
                proof {
                    if plain {
                        assert(literal_value(*property.expression));
                        assert(literal_code(*property.expression) is Some);
                        assert(compiler.fuel > 0);
                    }
                }
                let ghost before_items = items@;
                let ghost p = placed_fields(inh, orig.take(k));
                let ghost fname = name@;
                compiler.drier();
                let node = compiler.compile_expression((*property.expression).duplicate());
                compiler.undrier();
                match node {
                    Ok(t) => {
                        let tt = t.transpile();
                        let code = concat(tt.as_str(), ";");
                        compiler.emit(code.as_str());
                        place_item(&mut items, replace, ClassItemType {
                            name,
                            index,
                            class_item_type: t,
                            value: *property.expression,
                        });
                        proof {
                            if fl {
                                assert(t@ == literal_type(*property.expression));
                                let last: int = match replace {
                                    Some(j) => j as int,
                                    None => p.len() as int,
                                };
                                assert forall|j: int| 0 <= j < last implies (#[trigger] p[j]).name != fname by {
                                    assert(before_items[j].name@ == p[j].name);
                                }
                                if replace is Some {
                                    assert(before_items[last].name@ == p[last].name);
                                }
                                lemma_first_field_at(p, fname, 0, last);
                                assert(orig.take(k + 1).drop_last() =~= orig.take(k));
                                assert(orig.take(k + 1).last() == orig[k]);
                                assert(items_are(items@, place_member(p, fname, index, literal_type(*property.expression))));
                            }
                        }
                    },
                    Err(e) => {
                        return Err(e);
                    },
                }
            },
            ClassItem::Method(method) => {
                let ghost mv = method;
                let ghost before_items = items@;
                let ghost p = placed_fields(inh, orig.take(k));
                let ghost fname = name@;
                let Method { name: _, return_type, arguments, body } = method;
                let mut argument_types: Vec<Types> = Vec::new();
                let ghost kk = k;
                let mut k: usize = 0;
                while k < arguments.len()
                    invariant
                        k <= arguments.len(),
                        Compiler::kept(old(compiler), compiler),
                        old(compiler).wf(),
                        compiler.fuel < old(compiler).fuel,
                        argument_types@.len() == k,
                        forall|j: int| 0 <= j < k ==> (#[trigger] argument_types@[j])@ == arguments@[j]._type@,
                        fl ==> compiler.scopes == defined.scopes && compiler.symbol_scope == defined.symbol_scope
                            && compiler.location == defined.location,
                    decreases arguments.len() - k,
                {
                    argument_types.push(arguments[k]._type.duplicate());
                    k = k + 1;
                }
                let rt = return_type.transpile();
                let method_type = Types::Function(FunctionType {
                    return_type: Box::new(return_type.duplicate()),
                    parameter_types: argument_types,
                    reference: String::new(),
                    is_method: true,
                });
                proof {
                    if fl {
                        assert(orig[kk].item == ClassItem::Method(mv));
                        assert(method_type@->Function_1 =~= Seq::new(mv.arguments@.len(), |i: int| mv.arguments@[i]._type@));
                        assert(method_type@->Function_2 =~= Seq::<char>::empty());
                        assert(method_type@ == member_type(orig[kk].item));
                    }
                }
                let ghost mt = method_type@;
                place_item(&mut items, replace, ClassItemType {
                    name: name.clone(),
                    index,
                    class_item_type: method_type,
                    value: Expression::Function(crate::parser::expression::Function {
                        name,
                        parameters: arguments,
                        body,
                        predefined_type: Some(return_type),
                        public: false,
                    }),
                });
                let code = concat(rt.as_str(), ";");
                compiler.emit(code.as_str());
                proof {
                    if fl {
                        let last: int = match replace {
                            Some(j) => j as int,
                            None => p.len() as int,
                        };
                        assert forall|j: int| 0 <= j < last implies (#[trigger] p[j]).name != fname by {
                            assert(before_items[j].name@ == p[j].name);
                        }
                        if replace is Some {
                            assert(before_items[last].name@ == p[last].name);
                        }
                        lemma_first_field_at(p, fname, 0, last);
                        assert(orig.take(kk + 1).drop_last() =~= orig.take(kk));
                        assert(orig.take(kk + 1).last() == orig[kk]);
                        assert(items_are(items@, place_member(p, fname, index, mt)));
                    }
                }
            },
            ClassItem::Lazy(lazy) => {
                proof {
                    if fl {
                        assert(orig[k].item is Property);
                    }
                }
                let lt = lazy.transpile();
                place_item(&mut items, replace, ClassItemType {
                    name,
                    index,
                    class_item_type: lazy,
                    value: Expression::Integer(Integer { value: 0 }),
                });
                match compiler.resolve_symbol(lt.as_str()) {
                    Some(found) => {
                        let ft = found.transpile();
                        let code = concat(ft.as_str(), ";");
                        compiler.emit(code.as_str());
                    },
                    None => {
                        let code = concat(lt.as_str(), ";");
                        compiler.emit(code.as_str());
                    },
                }
            },
        }
        proof {
            if plain {
                assert(orig.take(k + 1).drop_last() =~= orig.take(k));
                assert(orig.take(k + 1).last() == orig[k]);
                if old(compiler).dry == 0 {
                    assert(compiler.code() =~= opened + members_code(orig.take(k + 1)));
                }
            }
        }
    }
    proof {
        if plain {
            assert(orig.take(n as int) =~= orig);
        }
    }
    let ghost before_close = compiler.code();
    compiler.emit("};");
    proof {
        if fl {
            assert(compiler.scopes@[cur].variables@[k0].index == var.index);
            assert(crate::compiler::holds_variable(compiler.scopes@[cur], var.index, var.name@));
        }
    }
    let ghost final_items = Types::Compound(Compound(class_name, items))@;
    if let Some((s, k)) = compiler.get_symbol_mutable(var.index, var.name.as_str(), None) {
        compiler.set_symbol_public(s, k, public);
        compiler.set_symbol_type(s, k, Types::Compound(Compound(class_name, items)));
        proof {
            if fl {
                assert(final_items->Compound_1 =~= placed_fields(inh, orig));
                assert(compiler.scopes@[s as int].variables@[k as int]._type@ == final_items);
                assert(final_items == TypesV::Compound(cname, placed_fields(inh, orig)));
                assert(0 <= s < compiler.scopes@.len() && 0 <= k < compiler.scopes@[s as int].variables@.len()
                    && compiler.scopes@[s as int].variables@[k as int].index == old(compiler).variable_count
                    && compiler.scopes@[s as int].variables@[k as int].name@ == cname);
            }
        }
    } else {
        proof {
            assert(!fl);
        }
    }
    proof {
        if old(compiler).dry == 0 {
            let fields = before_close.skip(opened.len() as int);
            assert(before_close =~= opened + fields);
            assert(compiler.code() =~= c0 + class_opening(old(compiler).variable_count) + fields + "};"@);
        }
    }
    Ok(Types::Void)
}

/// The opening of the Arc code of a class defined as variable `index`.
pub open spec fn class_opening(index: u32) -> Seq<char> {
    ".COMPOUND \""@ + "class_"@ + nat_digits(index as nat) + "\" { "@
}

/// The primitive type a name in `extends <name>` stands for.
pub open spec fn primitive_type_of(name: Seq<char>) -> Option<TypesV> {
    if name == "int"@ {
        Some(TypesV::Basic(BaseTypesV::Integer))
    } else if name == "string"@ {
        Some(TypesV::Basic(BaseTypesV::String))
    } else if name == "bool"@ {
        Some(TypesV::Basic(BaseTypesV::Boolean))
    } else if name == "float"@ {
        Some(TypesV::Basic(BaseTypesV::Float))
    } else {
        None
    }
}

/// The primitive type a name in `extends <name>` stands for.
pub fn primitive_type(name: &str) -> (r: Option<Types>)
    ensures
        match r {
            Some(t) => primitive_type_of(name@) == Some(t@),
            None => primitive_type_of(name@) is None,
        },
{
    proof {
        reveal_strlit("int"); reveal_strlit("string"); reveal_strlit("bool"); reveal_strlit("float");
    }
    if str_eq(name, "int") {
        Some(Types::Basic(BaseTypes::Integer))
    } else if str_eq(name, "string") {
        Some(Types::Basic(BaseTypes::String))
    } else if str_eq(name, "bool") {
        Some(Types::Basic(BaseTypes::Boolean))
    } else if str_eq(name, "float") {
        Some(Types::Basic(BaseTypes::Float))
    } else {
        None
    }
}

/// Whether none of the members is a method.
pub open spec fn no_methods(items: Seq<crate::parser::statement::ClassField>) -> bool {
    forall|i: int| 0 <= i < items.len() ==> !((#[trigger] items[i]).item is Method)
}

/// Compiles `extends <type> { ... }`: the methods are recorded as extensions of the primitive
/// type and compiled as functions named `<Arc type>_<method>` taking the value as `self`
/// first. Only `int`, `string`, `bool` and `float` can be extended (the unknown error
/// otherwise).
pub fn compile_extend_statement(compiler: &mut Compiler, class: ExtendStatement) -> (r: Result<Types, CompilerException>)
    requires
        old(compiler).wf(),
    ensures
        Compiler::kept(old(compiler), final(compiler)),
        r matches Ok(t) ==> t@ == TypesV::Void,
        old(compiler).fuel > 0 && primitive_type_of(class.identifier.value@) is None
            ==> r == Err::<Types, CompilerException>(unplaced(CompilerExceptionCode::Unknown))
                && *final(compiler) == (Compiler { fuel: (old(compiler).fuel - 1) as u64, ..*old(compiler) }),
        old(compiler).fuel > 0 && primitive_type_of(class.identifier.value@) is Some && no_methods(class.items@) ==> ({
            let key = arc_type_name(primitive_type_of(class.identifier.value@)->0);
            &&& r matches Ok(t) && t@ == TypesV::Void
            &&& (exists|i: int| 0 <= i < old(compiler).extensions@.len() && (#[trigger] old(compiler).extensions@[i]).0@ == key)
                ==> final(compiler).extensions@ == old(compiler).extensions@
            &&& !(exists|i: int| 0 <= i < old(compiler).extensions@.len() && (#[trigger] old(compiler).extensions@[i]).0@ == key)
                ==> final(compiler).extensions@.drop_last() == old(compiler).extensions@
                    && final(compiler).extensions@.len() == old(compiler).extensions@.len() + 1
                    && final(compiler).extensions@.last().0@ == key && final(compiler).extensions@.last().1@.len() == 0
        }),
    decreases old(compiler).fuel,
{
    let ghost nm = primitive_type_of(class.identifier.value@) is Some && no_methods(class.items@);
    let ghost ext0 = old(compiler).extensions;
    if !compiler.spend() {
        return Err(unknown_error());
    }
    let raw_type = match primitive_type(class.identifier.value.as_str()) {
        Some(t) => t,
        None => {
            return Err(unknown_error());
        },
    };
    let key = raw_type.transpile();
    let mut pos: usize = 0;
    while pos < compiler.extensions.len()
        invariant
            pos <= compiler.extensions.len(),
            Compiler::kept(old(compiler), compiler),
            old(compiler).wf(),
            compiler.fuel < old(compiler).fuel,
            primitive_type_of(class.identifier.value@) is Some,
            compiler.extensions == ext0,
            ext0 == old(compiler).extensions,
            key@ == arc_type_name(primitive_type_of(class.identifier.value@)->0),
            forall|j: int| 0 <= j < pos ==> (#[trigger] ext0@[j]).0@ != key@,
        ensures
            pos <= compiler.extensions.len(),
            compiler.extensions == ext0,
            forall|j: int| 0 <= j < pos ==> (#[trigger] ext0@[j]).0@ != key@,
            pos < compiler.extensions.len() ==> ext0@[pos as int].0@ == key@,
        decreases compiler.extensions.len() - pos,
    {
        if str_eq(compiler.extensions[pos].0.as_str(), key.as_str()) {
            break;
        }
        pos = pos + 1;
    }
    let found = pos < compiler.extensions.len();
    proof {
        if found {
            assert(ext0@[pos as int].0@ == key@);
        } else {
            assert(!(exists|i: int| 0 <= i < ext0@.len() && (#[trigger] ext0@[i]).0@ == key@));
        }
    }
    let mut entry: (String, Vec<Method>) = (key.clone(), Vec::new());
    let ghost entry0 = entry;
    if pos < compiler.extensions.len() {
        std::mem::swap(&mut entry, &mut compiler.extensions[pos]);
    }
    let ghost swapped = entry;
    let mut k: usize = 0;
    while k < class.items.len()
        invariant
            k <= class.items.len(),
            Compiler::kept(old(compiler), compiler),
            old(compiler).wf(),
            compiler.fuel < old(compiler).fuel,
            primitive_type_of(class.identifier.value@) is Some,
            nm == (primitive_type_of(class.identifier.value@) is Some && no_methods(class.items@)),
            nm ==> entry == swapped,
        decreases class.items.len() - k,
    {
        proof {
            if nm {
                assert(!(class.items@[k as int].item is Method));
            }
        }
        if let ClassItem::Method(method) = &class.items[k].item {
            entry.1.push(method.duplicate());
        }
        k = k + 1;
    }
    if pos < compiler.extensions.len() {
        std::mem::swap(&mut entry, &mut compiler.extensions[pos]);
    } else {
        compiler.extensions.push(entry);
    }
    proof {
        if nm {
            if found {
                assert(compiler.extensions@ =~= ext0@);
            }
        }
    }
    let ghost ext1 = compiler.extensions;
    let mut k: usize = 0;
    while k < class.items.len()
        invariant
            Compiler::kept(old(compiler), compiler),
            old(compiler).wf(),
            compiler.fuel < old(compiler).fuel,
            primitive_type_of(class.identifier.value@) is Some,
            nm == (primitive_type_of(class.identifier.value@) is Some && no_methods(class.items@)),
            nm ==> compiler.extensions == ext1,
        decreases class.items.len() - k,
    {
        proof {
            if nm {
                assert(!(class.items@[k as int].item is Method));
            }
        }
        if let ClassItem::Method(method) = &class.items[k].item {
            let mut params: Vec<crate::parser::expression::Parameter> = Vec::new();
            params.push(crate::parser::expression::Parameter {
                identifier: Identifier::new(owned("self"), 0, 0),
                _type: raw_type.duplicate(),
            });
            let mut a: usize = 0;
            while a < method.arguments.len()
                invariant
                    a <= method.arguments.len(),
                    Compiler::kept(old(compiler), compiler),
                    old(compiler).wf(),
                    compiler.fuel < old(compiler).fuel,
                    primitive_type_of(class.identifier.value@) is Some,
                decreases method.arguments.len() - a,
            {
                params.push(method.arguments[a].duplicate());
                a = a + 1;
            }
            let fname = cat3(key.as_str(), "_", method.name.as_str());
            compile_expression_function(compiler, crate::parser::expression::Function {
                name: fname,
                parameters: params,
                body: method.body.duplicate(),
                predefined_type: None,
                public: false,
            })?;
        }
        k = k + 1;
    }
    Ok(Types::Void)
}

/// The result of `std::path::Path::parent` on a path, as text.
pub uninterp spec fn path_parent_of(p: Seq<char>) -> Option<Seq<char>>;

/// The result of `std::path::Path::join`, as text.
pub uninterp spec fn path_join_of(base: Seq<char>, file: Seq<char>) -> Seq<char>;

/// The result of `std::path::Path::extension` on a path, as text.
pub uninterp spec fn path_extension_of(p: Seq<char>) -> Option<Seq<char>>;

/// The directory a path is in (std `Path::parent`); `None` for a root or an empty path.
/// Its result is named, not stated.
#[verifier::external_body]
pub(crate) fn path_parent(p: &str) -> (r: Option<String>)
    ensures
        match r {
            Some(s) => path_parent_of(p@) == Some(s@),
            None => path_parent_of(p@) is None,
        },
{
    match std::path::Path::new(p).parent() {
        Some(q) => Some(q.to_string_lossy().into_owned()),
        None => None,
    }
}

/// `file` relative to `base` (std `Path::join`); its result is named, not stated.
#[verifier::external_body]
pub(crate) fn path_join(base: &str, file: &str) -> (r: String)
    ensures
        r@ == path_join_of(base@, file@),
{
    std::path::Path::new(base).join(file).to_string_lossy().into_owned()
}

/// The extension of a path's file name (std `Path::extension`); its result is named, not
/// stated.
#[verifier::external_body]
pub(crate) fn path_extension(p: &str) -> (r: Option<String>)
    ensures
        match r {
            Some(s) => path_extension_of(p@) == Some(s@),
            None => path_extension_of(p@) is None,
        },
{
    match std::path::Path::new(p).extension() {
        Some(e) => Some(e.to_string_lossy().into_owned()),
        None => None,
    }
}

/// The contents recorded for a path: `None` when no record exists, `Some(None)` when the
/// file could not be read.
fn find_source(sources: &Vec<(String, Option<String>)>, path: &str) -> (r: Option<Option<String>>)
    ensures
        r matches Some(c) ==> exists|k: int| 0 <= k < sources@.len() && (#[trigger] sources@[k]).0@ == path@
            && c == sources@[k].1 && forall|j: int| 0 <= j < k ==> (#[trigger] sources@[j]).0@ != path@,
        r is None ==> forall|j: int| 0 <= j < sources@.len() ==> (#[trigger] sources@[j]).0@ != path@,
{
    let mut i: usize = 0;
    while i < sources.len()
        invariant
            i <= sources.len(),
            forall|j: int| 0 <= j < i ==> (#[trigger] sources@[j]).0@ != path@,
        decreases sources.len() - i,
    {
        if str_eq(sources[i].0.as_str(), path) {
            let content = match &sources[i].1 {
                Some(t) => Some(t.clone()),
                None => None,
            };
            return Some(content);
        }
        i = i + 1;
    }
    None
}

/// The path an import refers to: the file relative to the directory of the current location
/// (or to the base location at the top level).
pub open spec fn import_path(location: Seq<char>, base_location: Seq<char>, file: Seq<char>) -> Seq<char> {
    let base = if location.len() == 0 {
        base_location
    } else {
        match path_parent_of(location) {
            Some(p) => p,
            None => Seq::empty(),
        }
    };
    path_join_of(base, file)
}

/// An import inside a file is found next to that file: where the compiler's current
/// location is a non-empty path with a parent directory, the import's path is the file
/// joined to that directory, whatever the base location; only at the top level (an empty
/// location) is it joined to the base location.
pub proof fn law_import_path(location: Seq<char>, base_location: Seq<char>, other_base: Seq<char>, file: Seq<char>)
    ensures
        location.len() > 0 ==> import_path(location, base_location, file) == import_path(location, other_base, file),
        location.len() > 0 && path_parent_of(location) is Some
            ==> import_path(location, base_location, file) == path_join_of(path_parent_of(location)->0, file),
        location.len() == 0 ==> import_path(location, base_location, file) == path_join_of(base_location, file),
{
}

/// Whether an import path names a Loop source file (extension `loop` or `lp`).
pub open spec fn is_loop_file(path: Seq<char>) -> bool {
    path_extension_of(path) == Some("loop"@) || path_extension_of(path) == Some("lp"@)
}

/// Compiles an import. A Loop file (`.loop` or `.lp`) is parsed and compiled as a module at
/// its own location, and the name is declared as that module; its contents come from the
/// compiler's sources: a file with no record there is asked for (`pending_read`) and, like an
/// unreadable one, fails with `CanNotReadFile`. Any other file is a native library: the name
/// is recorded among the imports and the library is loaded.
pub fn compile_import_statement(compiler: &mut Compiler, import: Import) -> (r: Result<Types, CompilerException>)
    requires
        old(compiler).wf(),
    ensures
        Compiler::kept(old(compiler), final(compiler)),
        old(compiler).fuel > 0 && !is_loop_file(import_path(old(compiler).location@, old(compiler).base_location@, import.file@))
            ==> (r matches Ok(t) && t@ == TypesV::Void
                && final(compiler).imports@ == old(compiler).imports@.push(import.identifier)
                && (old(compiler).dry == 0 ==> final(compiler).code() == old(compiler).code() + (".LOADLIB {.CONSTANT CHAR[] \""@
                    + import_path(old(compiler).location@, old(compiler).base_location@, import.file@)
                    + "\";} \""@ + import.identifier@ + "\";"@))),
        old(compiler).fuel > 0 && is_loop_file(import_path(old(compiler).location@, old(compiler).base_location@, import.file@))
            && (forall|j: int| 0 <= j < old(compiler).sources@.len() ==> (#[trigger] old(compiler).sources@[j]).0@
                != import_path(old(compiler).location@, old(compiler).base_location@, import.file@))
            ==> (r matches Err(e) && (e.exception matches CompilerExceptionCode::CanNotReadFile(f)
                && f@ == import_path(old(compiler).location@, old(compiler).base_location@, import.file@))
                && (final(compiler).pending_read matches Some(q)
                && q@ == import_path(old(compiler).location@, old(compiler).base_location@, import.file@))),
    decreases old(compiler).fuel,
{
    if !compiler.spend() {
        return Err(unknown_error());
    }
    let Import { file, identifier } = import;
    proof {
        reveal_strlit("");
        if compiler.location@.len() == 0 {
            assert(compiler.location@ =~= ""@);
        }
    }
    let base: String = if str_eq(compiler.location.as_str(), "") {
        compiler.base_location.clone()
    } else {
        match path_parent(compiler.location.as_str()) {
            Some(p) => p,
            None => String::new(),
        }
    };
    proof {
        reveal_strlit("");
        reveal_strlit("loop");
        reveal_strlit("lp");
    }
    let path = path_join(base.as_str(), file.as_str());
    let is_loop = match path_extension(path.as_str()) {
        Some(e) => str_eq(e.as_str(), "loop") || str_eq(e.as_str(), "lp"),
        None => false,
    };
    assert(base@ == (if old(compiler).location@.len() == 0 { old(compiler).base_location@ } else {
        match path_parent_of(old(compiler).location@) { Some(p) => p, None => Seq::empty() } }));
    assert(path@ == import_path(old(compiler).location@, old(compiler).base_location@, import.file@));
    assert(is_loop == is_loop_file(path@));
    if is_loop {
        match find_source(&compiler.sources, path.as_str()) {
            None => {
                compiler.pending_read = Some(path.clone());
                return Err(CompilerException::new(0, 0, CompilerExceptionCode::CanNotReadFile(path)));
            },
            Some(None) => {
                return Err(CompilerException::new(0, 0, CompilerExceptionCode::CanNotReadFile(path)));
            },
            Some(Some(contents)) => {
                let lexer = crate::lexer::build_lexer(contents.as_str());
                let mut parser = crate::parser::build_parser(lexer, path.as_str());
                let program = match parser.parse() {
                    Ok(p) => p,
                    Err(e) => {
                        return Err(CompilerException::from_syntax(e));
                    },
                };
                compiler.enter_location(path.clone());
                compiler.compiled_from = contents;
                compiler.compile(program)?;
                let variables = compiler.exit_location();
                let assign = VariableDeclaration {
                    ident: Identifier::new(identifier, 0, 0),
                    value: Box::new(Expression::Integer(Integer { value: 0 })),
                    data_type: Types::Module(variables),
                    location: (-1, 0),
                };
                return compile_statement_variable_declaration(compiler, assign);
            },
        }
    }
    compiler.imports.push(identifier.clone());
    let code = cat5(".LOADLIB {.CONSTANT CHAR[] \"", path.as_str(), "\";} \"", identifier.as_str(), "\";");
    compiler.emit(code.as_str());
    Ok(Types::Void)
}

/// Compiles `name := value`: the name is defined (with its declared type, if any) and the
/// value stored in it: `.STORE <index> {<value>};`. A declared type other than `Auto` must be
/// the value's type (`WrongType` otherwise); the variable then gets the value's type.
pub fn compile_statement_variable_declaration(compiler: &mut Compiler, variable: VariableDeclaration) -> (r: Result<Types, CompilerException>)
    requires
        old(compiler).wf(),
    ensures
        Compiler::kept(old(compiler), final(compiler)),
        r matches Ok(t) ==> t@ == TypesV::Void,
        old(compiler).fuel > 1 && old(compiler).variable_count < u32::MAX && operand_code(old(compiler), *variable.value) is Some
            && !(*variable.value is Identifier && variable.value->Identifier_0.value@ == variable.ident.value@) ==> ({
            let value_code = operand_code(old(compiler), *variable.value)->0;
            let value_type = operand_type(old(compiler), *variable.value);
            let text = ".STORE "@ + nat_digits(old(compiler).variable_count as nat) + " {"@ + value_code + "};"@;
            &&& (old(compiler).dry == 0 ==> final(compiler).code() == old(compiler).code() + text)
            &&& (variable.data_type@ == value_type || variable.data_type@ == TypesV::Auto ==> r is Ok)
            &&& (variable.data_type@ != value_type && variable.data_type@ != TypesV::Auto
                ==> (r matches Err(e) && e == unplaced(e.exception) && (e.exception matches CompilerExceptionCode::WrongType(g, x)
                    && g@ == arc_type_name(value_type) && x@ == arc_type_name(variable.data_type@))))
        }),
        old(compiler).fuel > 4 && old(compiler).variable_count < u32::MAX && *variable.value is Suffix
            && value_code(old(compiler), *variable.value) is Some && value_avoids(*variable.value, variable.ident.value@) ==> ({
            let value_code = value_code(old(compiler), *variable.value)->0;
            let value_type = TypesV::Basic(BaseTypesV::Integer);
            let text = ".STORE "@ + nat_digits(old(compiler).variable_count as nat) + " {"@ + value_code + "};"@;
            &&& (old(compiler).dry == 0 ==> final(compiler).code() == old(compiler).code() + text)
            &&& (variable.data_type@ == value_type || variable.data_type@ == TypesV::Auto ==> r is Ok)
            &&& (variable.data_type@ != value_type && variable.data_type@ != TypesV::Auto
                ==> (r matches Err(e) && e == unplaced(e.exception) && (e.exception matches CompilerExceptionCode::WrongType(g, x)
                    && g@ == arc_type_name(value_type) && x@ == arc_type_name(variable.data_type@))))
        }),
        old(compiler).fuel > 4 && old(compiler).variable_count < u32::MAX && value_code(old(compiler), *variable.value) is Some
            && value_avoids(*variable.value, variable.ident.value@) && !is_export_name(variable.ident.value@) && r is Ok
            ==> exists|s: int, k: int| 0 <= s < final(compiler).scopes@.len() && 0 <= k < final(compiler).scopes@[s].variables@.len()
                && (#[trigger] final(compiler).scopes@[s].variables@[k]).index == old(compiler).variable_count
                && final(compiler).scopes@[s].variables@[k].name@ == variable.ident.value@
                && final(compiler).scopes@[s].variables@[k]._type@ == value_type(old(compiler), *variable.value),
    decreases old(compiler).fuel,
{
    let ghost c0 = old(compiler).code();
    if !compiler.spend() {
        return Err(unknown_error());
    }
    let ghost before_def = *compiler;
    let ghost name = variable.ident.value@;
    let VariableDeclaration { ident, value, data_type, location: _ } = variable;
    let var = compiler.define_symbol(ident.value, data_type.duplicate(), -1)?;
    let ghost bin = old(compiler).fuel > 4 && old(compiler).variable_count < u32::MAX && *value is Suffix
        && value_code(old(compiler), *value) is Some && value_avoids(*value, name);
    let ghost typed = old(compiler).fuel > 4 && old(compiler).variable_count < u32::MAX && value_code(old(compiler), *value) is Some
        && value_avoids(*value, name) && !is_export_name(name);
    let ghost defined = *compiler;
    let ghost cur = before_def.current_scope();
    let ghost k0 = before_def.scopes@[cur].variables@.len() as int;
    proof {
        crate::compiler::lemma_scope_of_bound(before_def.symbol_scope@, before_def.location@, before_def.scopes@.len());
        if typed {
            reveal(value_code);
            assert(spec_define_target(before_def.scopes@, cur, name) == cur);
            assert(defined.scopes@[cur].variables@[k0] == defined.scopes@[cur].variables@.last());
            if !(*value is Suffix) {
                assert(operand_code(old(compiler), *value) is Some);
            }
        }
    }
    proof {
        if bin {
            reveal(value_code);
            let id = before_def.current_scope();
            let sx = value->Suffix_0;
            crate::compiler::lemma_scope_of_bound(before_def.symbol_scope@, before_def.location@, before_def.scopes@.len());
            lemma_define_target_bounds(before_def.scopes@, id, name);
            if sx.left is Identifier {
                law_define_keeps_other_names(before_def.scopes@, compiler.scopes@,
                    spec_define_target(before_def.scopes@, id, name), name, id, sx.left->Identifier_0.value@);
            }
            if sx.right is Identifier {
                law_define_keeps_other_names(before_def.scopes@, compiler.scopes@,
                    spec_define_target(before_def.scopes@, id, name), name, id, sx.right->Identifier_0.value@);
            }
            assert(operand_code(compiler, sx.left) == operand_code(old(compiler), sx.left));
            assert(operand_code(compiler, sx.right) == operand_code(old(compiler), sx.right));
            assert(value_code(compiler, *value) == value_code(old(compiler), *value));
        }
        if *value is Identifier && value->Identifier_0.value@ != name {
            let id = before_def.current_scope();
            crate::compiler::lemma_scope_of_bound(before_def.symbol_scope@, before_def.location@, before_def.scopes@.len());
            lemma_define_target_bounds(before_def.scopes@, id, name);
            law_define_keeps_other_names(before_def.scopes@, compiler.scopes@,
                spec_define_target(before_def.scopes@, id, name), name, id, value->Identifier_0.value@);
        }
    }
    let scope = compiler.get_symbol_scope();
    let idx = u32_to_string(var.index);
    let code = cat3(".STORE ", idx.as_str(), " {");
    compiler.emit(code.as_str());
    let result = compiler.compile_expression(*value)?;
    compiler.emit("};");
    proof {
        if old(compiler).dry == 0 && old(compiler).fuel > 1 && old(compiler).variable_count < u32::MAX
            && operand_code(old(compiler), *value) is Some && !(*value is Identifier && value->Identifier_0.value@ == name) {
            assert(compiler.code() =~= c0 + (".STORE "@ + nat_digits(old(compiler).variable_count as nat) + " {"@
                + operand_code(old(compiler), *value)->0 + "};"@));
        }
    }
    proof {
        if bin && old(compiler).dry == 0 {
            assert(compiler.code() =~= c0 + (".STORE "@ + nat_digits(old(compiler).variable_count as nat) + " {"@
                + value_code(old(compiler), *value)->0 + "};"@));
        }
    }
    let ghost c1 = compiler.code();
    if !data_type.same_as(&result) && !data_type.is_auto() {
        let got = result.transpile();
        let expected = data_type.transpile();
        return Err(CompilerException::new(0, 0, CompilerExceptionCode::WrongType(got, expected)));
    }
    proof {
        if typed {
            reveal(value_code);
            assert(compiler.scopes == defined.scopes);
            assert(scope as int == cur);
            assert(compiler.scopes@[cur].variables@[k0].index == var.index);
            assert(result@ == value_type(old(compiler), *value));
        }
    }
    let ghost rt = result@;
    if let Some(k) = crate::compiler::variable_table::get_variable_mutable(&compiler.scopes, scope, var.index, var.name.as_str()) {
        compiler.set_symbol_type(scope, k, result);
        proof {
            assert(compiler.scopes@[scope as int].variables@[k as int]._type@ == rt);
            assert(0 <= scope < compiler.scopes@.len() && 0 <= k < compiler.scopes@[scope as int].variables@.len()
                && compiler.scopes@[scope as int].variables@[k as int].index == old(compiler).variable_count);
        }
    } else {
        proof {
            assert(!typed);
        }
    }
    assert(compiler.code() == c1);
    Ok(Types::Void)
}

/// Compiles `const name := value`: the name is defined, as a constant, with its declared type
/// and the value stored in it: `.STORE <index> {<value>};`. Errors in the value are not reported.
pub fn compile_statement_constant_declaration(compiler: &mut Compiler, constant: ConstantDeclaration) -> (r: Result<Types, CompilerException>)
    requires
        old(compiler).wf(),
    ensures
        Compiler::kept(old(compiler), final(compiler)),
        r matches Ok(t) ==> t@ == TypesV::Void,
        old(compiler).fuel > 0 && old(compiler).variable_count < u32::MAX ==> r is Ok,
        old(compiler).fuel > 1 && old(compiler).variable_count < u32::MAX && operand_code(old(compiler), *constant.value) is Some
            && !(*constant.value is Identifier && constant.value->Identifier_0.value@ == constant.ident.value@)
            && old(compiler).dry == 0 ==> final(compiler).code() == old(compiler).code() + (".STORE "@
                + nat_digits(old(compiler).variable_count as nat) + " {"@ + operand_code(old(compiler), *constant.value)->0 + "};"@),
        old(compiler).fuel > 4 && old(compiler).variable_count < u32::MAX && *constant.value is Suffix
            && value_code(old(compiler), *constant.value) is Some && value_avoids(*constant.value, constant.ident.value@)
            && old(compiler).dry == 0 ==> final(compiler).code() == old(compiler).code() + (".STORE "@
                + nat_digits(old(compiler).variable_count as nat) + " {"@ + value_code(old(compiler), *constant.value)->0 + "};"@),
        old(compiler).fuel > 4 && old(compiler).variable_count < u32::MAX && value_code(old(compiler), *constant.value) is Some
            && value_avoids(*constant.value, constant.ident.value@)
            && !is_export_name(constant.ident.value@) ==> exists|s: int, k: int| 0 <= s < final(compiler).scopes@.len()
                && 0 <= k < final(compiler).scopes@[s].variables@.len()
                && (#[trigger] final(compiler).scopes@[s].variables@[k]).index == old(compiler).variable_count
                && final(compiler).scopes@[s].variables@[k].name@ == constant.ident.value@
                && final(compiler).scopes@[s].variables@[k].modifiers.constant,
    decreases old(compiler).fuel,
{
    let ghost c0 = old(compiler).code();
    if !compiler.spend() {
        return Err(unknown_error());
    }
    let ghost before_def = *compiler;
    let ghost name = constant.ident.value@;
    let ConstantDeclaration { ident, value, data_type } = constant;
    let var = compiler.define_symbol(ident.value, data_type, -1)?;
    let ghost defined = *compiler;
    let ghost cur = before_def.current_scope();
    let ghost k0 = before_def.scopes@[cur].variables@.len() as int;
    proof {
        crate::compiler::lemma_scope_of_bound(before_def.symbol_scope@, before_def.location@, before_def.scopes@.len());
        if !is_export_name(name) {
            assert(spec_define_target(before_def.scopes@, cur, name) == cur);
            assert(defined.scopes@[cur].variables@[k0] == defined.scopes@[cur].variables@.last());
        }
        if old(compiler).fuel > 4 && *value is Suffix && value_code(old(compiler), *value) is Some && value_avoids(*value, name) {
            reveal(value_code);
            let sx = value->Suffix_0;
            lemma_define_target_bounds(before_def.scopes@, cur, name);
            if sx.left is Identifier {
                law_define_keeps_other_names(before_def.scopes@, compiler.scopes@,
                    spec_define_target(before_def.scopes@, cur, name), name, cur, sx.left->Identifier_0.value@);
            }
            if sx.right is Identifier {
                law_define_keeps_other_names(before_def.scopes@, compiler.scopes@,
                    spec_define_target(before_def.scopes@, cur, name), name, cur, sx.right->Identifier_0.value@);
            }
            assert(operand_code(compiler, sx.left) == operand_code(old(compiler), sx.left));
            assert(operand_code(compiler, sx.right) == operand_code(old(compiler), sx.right));
            assert(value_code(compiler, *value) == value_code(old(compiler), *value));
        }
        if *value is Identifier && value->Identifier_0.value@ != name {
            let id = before_def.current_scope();
            crate::compiler::lemma_scope_of_bound(before_def.symbol_scope@, before_def.location@, before_def.scopes@.len());
            lemma_define_target_bounds(before_def.scopes@, id, name);
            law_define_keeps_other_names(before_def.scopes@, compiler.scopes@,
                spec_define_target(before_def.scopes@, id, name), name, id, value->Identifier_0.value@);
        }
    }
    let idx = u32_to_string(var.index);
    let code = cat3(".STORE ", idx.as_str(), " {");
    compiler.emit(code.as_str());
    let ghost v = *value;
    let _ = compiler.compile_expression(*value);
    compiler.emit("};");
    proof {
        if old(compiler).fuel > 1 && old(compiler).variable_count < u32::MAX && operand_code(old(compiler), v) is Some
            && !(v is Identifier && v->Identifier_0.value@ == name) && old(compiler).dry == 0 {
            assert(compiler.code() =~= c0 + (".STORE "@ + nat_digits(old(compiler).variable_count as nat) + " {"@
                + operand_code(old(compiler), v)->0 + "};"@));
        }
        if old(compiler).fuel > 4 && old(compiler).variable_count < u32::MAX && v is Suffix && value_code(old(compiler), v) is Some
            && value_avoids(v, name) && old(compiler).dry == 0 {
            assert(compiler.code() =~= c0 + (".STORE "@ + nat_digits(old(compiler).variable_count as nat) + " {"@
                + value_code(old(compiler), v)->0 + "};"@));
        }
    }
    let ghost marked = old(compiler).fuel > 4 && old(compiler).variable_count < u32::MAX && value_code(old(compiler), v) is Some
        && value_avoids(v, name) && !is_export_name(name);
    proof {
        if marked {
            reveal(value_code);
            assert(compiler.scopes == defined.scopes);
            assert(compiler.current_scope() == cur);
            assert(compiler.scopes@[cur].variables@[k0].index == var.index);
            assert(crate::compiler::holds_variable(compiler.scopes@[cur], var.index, var.name@));
        }
    }
    if let Some((s, k)) = compiler.get_symbol_mutable(var.index, var.name.as_str(), None) {
        compiler.set_symbol_constant(s, k, true);
        proof {
            assert(0 <= s < compiler.scopes@.len() && 0 <= k < compiler.scopes@[s as int].variables@.len()
                && compiler.scopes@[s as int].variables@[k as int].index == old(compiler).variable_count);
        }
    } else {
        proof {
            assert(!marked);
        }
    }
    Ok(Types::Void)
}

/// Compiles `name = value` as `.STORE <index> {<value>};`. The name must resolve
/// (`UnknownSymbol` otherwise) and the value have the variable's type (`WrongType`
/// otherwise); its type is the variable's. Assigning to a constant ends compilation with the
/// error "a constant cannot be reassigned".
pub fn compile_statement_variable_assign(compiler: &mut Compiler, variable: VariableAssign) -> (r: Result<Types, CompilerException>)
    requires
        old(compiler).wf(),
    ensures
        Compiler::kept(old(compiler), final(compiler)),
        old(compiler).fuel > 0 && !occurs_somewhere(variable.ident.value@, "::"@)
            && spec_resolve(old(compiler).scopes@, old(compiler).current_scope(), variable.ident.value@) is None
            ==> r == Err::<Types, CompilerException>(unplaced(CompilerExceptionCode::UnknownSymbol(
                (UnknownSymbol { name: variable.ident.value, scope_depth: old(compiler).scope_index as u16 })))),
        old(compiler).fuel > 0 && resolved(old(compiler), variable.ident.value@) is Some
            && resolved(old(compiler), variable.ident.value@)->0.modifiers.constant
            ==> r == Err::<Types, CompilerException>(unplaced(CompilerExceptionCode::Unknown)) && final(compiler).thrown is Some,
        old(compiler).fuel > 1 && resolved(old(compiler), variable.ident.value@) is Some
            && !resolved(old(compiler), variable.ident.value@)->0.modifiers.constant
            && operand_code(old(compiler), *variable.value) is Some ==> ({
            let w = resolved(old(compiler), variable.ident.value@)->0;
            &&& emitted(old(compiler), final(compiler), ".STORE "@ + nat_digits(w.index as nat) + " {"@
                + operand_code(old(compiler), *variable.value)->0 + "};"@)
            &&& operand_type(old(compiler), *variable.value) == w._type@ ==> (r matches Ok(t) && t@ == w._type@)
            &&& operand_type(old(compiler), *variable.value) != w._type@ ==> (r matches Err(e) && e == unplaced(e.exception)
                && (e.exception matches CompilerExceptionCode::WrongType(g, x)
                && g@ == arc_type_name(operand_type(old(compiler), *variable.value)) && x@ == arc_type_name(w._type@)))
        }),
        old(compiler).fuel > 4 && resolved(old(compiler), variable.ident.value@) is Some
            && !resolved(old(compiler), variable.ident.value@)->0.modifiers.constant
            && *variable.value is Suffix && value_code(old(compiler), *variable.value) is Some ==> ({
            let w = resolved(old(compiler), variable.ident.value@)->0;
            let integer = TypesV::Basic(BaseTypesV::Integer);
            &&& emitted(old(compiler), final(compiler), ".STORE "@ + nat_digits(w.index as nat) + " {"@
                + value_code(old(compiler), *variable.value)->0 + "};"@)
            &&& integer == w._type@ ==> (r matches Ok(t) && t@ == w._type@)
            &&& integer != w._type@ ==> (r matches Err(e) && e == unplaced(e.exception)
                && (e.exception matches CompilerExceptionCode::WrongType(g, x)
                && g@ == arc_type_name(integer) && x@ == arc_type_name(w._type@)))
        }),
    decreases old(compiler).fuel,
{
    let ghost c0 = old(compiler).code();
    let ghost v = *variable.value;
    if !compiler.spend() {
        return Err(unknown_error());
    }
    let VariableAssign { ident, value } = variable;
    match compiler.resolve_symbol(ident.value.as_str()) {
        Some(var) => {
            if var.modifiers.constant {
                compiler.throw_exception(owned("a constant cannot be reassigned"), None);
                return Err(unknown_error());
            }
            let idx = u32_to_string(var.index);
            let code = cat3(".STORE ", idx.as_str(), " {");
            compiler.emit(code.as_str());
            proof {
                if old(compiler).fuel > 4 && v is Suffix && value_code(old(compiler), v) is Some {
                    reveal(value_code);
                    assert(value_code(compiler, v) == value_code(old(compiler), v));
                }
            }
            let result = compiler.compile_expression(*value);
            compiler.emit("};");
            proof {
                if old(compiler).dry == 0 && old(compiler).fuel > 1 && operand_code(old(compiler), v) is Some {
                    assert(compiler.code() =~= c0 + (".STORE "@ + nat_digits(var.index as nat) + " {"@
                        + operand_code(old(compiler), v)->0 + "};"@));
                }
                if old(compiler).dry == 0 && old(compiler).fuel > 4 && v is Suffix && value_code(old(compiler), v) is Some {
                    assert(compiler.code() =~= c0 + (".STORE "@ + nat_digits(var.index as nat) + " {"@
                        + value_code(old(compiler), v)->0 + "};"@));
                }
            }
            match result {
                Err(e) => Err(e),
                Ok(t) => {
                    if !t.same_as(&var._type) {
                        let got = t.transpile();
                        let expected = var._type.transpile();
                        Err(CompilerException::new(0, 0, CompilerExceptionCode::WrongType(got, expected)))
                    } else {
                        Ok(var._type)
                    }
                },
            }
        },
        None => {
            let depth = compiler.scope_index as u16;
            Err(CompilerException::new(0, 0, CompilerExceptionCode::UnknownSymbol(
                UnknownSymbol { name: ident.value, scope_depth: depth })))
        },
    }
}

} // verus!
