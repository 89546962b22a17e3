//! Sanzio: turns an Arc syntax tree into Lua source. Running the Lua code, and reading the
//! signatures of native libraries, is up to the program that embeds this library.
use vstd::prelude::*;
use crate::text::{owned, append_str, push_char, str_eq, str_to_chars, find_from, chars_range,
    i64_to_string, u64_to_string, int_digits, nat_digits, occurs_somewhere, occurs_at};

verus! {

broadcast use vstd::std_specs::vec::group_vec_axioms;

/// Where a load reads from: a variable, or a parameter of the function with this identifier.
pub enum LoadType {
    Variable,
    Parameter(i64),
}

/// The binary operations of Arc.
pub enum BinaryOperation {
    Add,
    Subtract,
    Multiply,
    Divide,
    Power,
    GreaterThan,
    Equals,
    NotEquals,
    Modulo,
}

/// A constant value of Arc.
pub enum ArcValue {
    Void,
    Integer(i64),
    Boolean(bool),
    Character(char),
    /// A float, by its decimal text.
    Float(String),
    /// A function: its number of parameters, its unique identifier and its body.
    Function(usize, i64, Vec<ArcNode>),
    /// A class instance: the values of its fields, in order.
    Compound(Vec<ArcValue>),
    Array(Vec<ArcValue>),
}

/// A node of an Arc syntax tree.
pub enum ArcNode {
    Constant(ArcValue),
    /// How to load, and the variable's (or parameter's) index.
    Load(LoadType, u64),
    /// Variable index and value.
    Store(u64, Box<ArcNode>),
    Suffix(BinaryOperation, Box<ArcNode>, Box<ArcNode>),
    /// Condition, body and alternative.
    Conditional(Box<ArcNode>, Vec<ArcNode>, Vec<ArcNode>),
    /// Name (empty when anonymous), unique identifier, number of parameters and body.
    Function(String, i64, usize, Vec<ArcNode>),
    /// Callee and arguments.
    Call(Box<ArcNode>, Vec<ArcNode>),
    /// Condition and body.
    While(Box<ArcNode>, Vec<ArcNode>),
    /// The value indexed and the index (counted from 0).
    Index(Box<ArcNode>, Box<ArcNode>),
    /// The value sliced, and the bounds.
    Slice(Box<ArcNode>, Box<ArcNode>, Box<ArcNode>),
    /// The array and the item pushed.
    Push(Box<ArcNode>, Box<ArcNode>),
    Copy(Box<ArcNode>),
    /// Library path (without extension) and the name it is bound to.
    LoadLib(String, String),
    Return(Box<ArcNode>),
    /// Target and value.
    Assign(Box<ArcNode>, Box<ArcNode>),
    /// Array and position.
    Pop(Box<ArcNode>, Box<ArcNode>),
    Length(Box<ArcNode>),
    And(Box<ArcNode>, Box<ArcNode>),
    Or(Box<ArcNode>, Box<ArcNode>),
    Compound,
}

/// An Arc program: its top-level nodes.
pub struct Ast {
    pub nodes: Vec<ArcNode>,
}

/// The Lua name of parameter `i` of the function with identifier `uid`.
pub open spec fn param_name(uid: int, i: int) -> Seq<char> {
    "param_"@ + int_digits(uid) + "_"@ + int_digits(i)
}

/// The first `n` parameter names of a function, separated by commas.
pub open spec fn params_lua(uid: int, n: nat) -> Seq<char>
    decreases n,
{
    if n == 0 {
        Seq::empty()
    } else if n == 1 {
        param_name(uid, 0)
    } else {
        params_lua(uid, (n - 1) as nat) + ","@ + param_name(uid, n - 1)
    }
}

/// The Lua operator of a binary operation.
pub open spec fn op_lua(op: BinaryOperation) -> Seq<char> {
    match op {
        BinaryOperation::Add => "+"@,
        BinaryOperation::Subtract => "-"@,
        BinaryOperation::Multiply => "*"@,
        BinaryOperation::Divide => "/"@,
        BinaryOperation::Power => "^"@,
        BinaryOperation::GreaterThan => ">"@,
        BinaryOperation::Equals => "=="@,
        BinaryOperation::NotEquals => "~="@,
        BinaryOperation::Modulo => "%"@,
    }
}

/// The Lua text of a binary operation puts between its operands the Lua operator of the same
/// meaning: `+`, `-`, `*`, `/`, `^`, `>`, `==`, `~=` (Lua's inequality) and `%`.
pub proof fn law_lua_binary_operators(a: ArcNode, b: ArcNode, f: bool)
    ensures
        ({
            let x = node_lua(a, f);
            let y = node_lua(b, x.1);
            &&& node_lua(ArcNode::Suffix(BinaryOperation::Add, Box::new(a), Box::new(b)), f).0 == "("@ + x.0 + "+"@ + y.0 + ")"@
            &&& node_lua(ArcNode::Suffix(BinaryOperation::Subtract, Box::new(a), Box::new(b)), f).0 == "("@ + x.0 + "-"@ + y.0 + ")"@
            &&& node_lua(ArcNode::Suffix(BinaryOperation::Multiply, Box::new(a), Box::new(b)), f).0 == "("@ + x.0 + "*"@ + y.0 + ")"@
            &&& node_lua(ArcNode::Suffix(BinaryOperation::Divide, Box::new(a), Box::new(b)), f).0 == "("@ + x.0 + "/"@ + y.0 + ")"@
            &&& node_lua(ArcNode::Suffix(BinaryOperation::Power, Box::new(a), Box::new(b)), f).0 == "("@ + x.0 + "^"@ + y.0 + ")"@
            &&& node_lua(ArcNode::Suffix(BinaryOperation::GreaterThan, Box::new(a), Box::new(b)), f).0 == "("@ + x.0 + ">"@ + y.0 + ")"@
            &&& node_lua(ArcNode::Suffix(BinaryOperation::Equals, Box::new(a), Box::new(b)), f).0 == "("@ + x.0 + "=="@ + y.0 + ")"@
            &&& node_lua(ArcNode::Suffix(BinaryOperation::NotEquals, Box::new(a), Box::new(b)), f).0 == "("@ + x.0 + "~="@ + y.0 + ")"@
            &&& node_lua(ArcNode::Suffix(BinaryOperation::Modulo, Box::new(a), Box::new(b)), f).0 == "("@ + x.0 + "%"@ + y.0 + ")"@
        }),
{
}

/// The characters of the character items of a list, each line break preceded by a backslash.
pub open spec fn char_text(s: Seq<ArcValue>) -> Seq<char>
    decreases s.len(),
{
    if s.len() == 0 {
        Seq::empty()
    } else {
        char_text(s.subrange(0, s.len() - 1)) + match s[s.len() - 1] {
            ArcValue::Character(c) => if c == '\n' { seq!['\\', c] } else { seq![c] },
            _ => Seq::empty(),
        }
    }
}

/// The characters of the character items of a list.
pub open spec fn plain_chars(s: Seq<ArcValue>) -> Seq<char>
    decreases s.len(),
{
    if s.len() == 0 {
        Seq::empty()
    } else {
        plain_chars(s.subrange(0, s.len() - 1)) + match s[s.len() - 1] {
            ArcValue::Character(c) => seq![c],
            _ => Seq::empty(),
        }
    }
}

/// The text of a value that is an array of characters (empty for other values).
pub open spec fn value_text(v: ArcValue) -> Seq<char> {
    match v {
        ArcValue::Array(items) => plain_chars(items@),
        _ => Seq::empty(),
    }
}

/// The part of `s` before its first "::".
pub open spec fn before_sep(s: Seq<char>) -> Seq<char> {
    let k = choose|k: int| occurs_at(s, "::"@, k) && forall|j: int| 0 <= j < k ==> !occurs_at(s, "::"@, j);
    s.subrange(0, k)
}

/// The part of `s` after its first "::", up to the next "::" or the end.
pub open spec fn after_sep(s: Seq<char>) -> Seq<char> {
    let k = choose|k: int| occurs_at(s, "::"@, k) && forall|j: int| 0 <= j < k ==> !occurs_at(s, "::"@, j);
    let rest = s.subrange(k + 2, s.len() as int);
    if occurs_somewhere(rest, "::"@) {
        let e = choose|e: int| occurs_at(rest, "::"@, e) && forall|j: int| 0 <= j < e ==> !occurs_at(rest, "::"@, j);
        rest.subrange(0, e)
    } else {
        rest
    }
}

/// The text that ends a call into a native library whose result may be a C string.
pub open spec fn native_call_end() -> Seq<char> {
    ") if type(res) == \"cdata\" then return ffi.string(res) else return res end end)()"@
}

/// The text that ends a non-character array constant.
pub open spec fn array_end() -> Seq<char> {
    "}, { __concat = function(a, b) return table.insert(a, b) end })"@
}

/// Whether a tree can be compiled: a call of a constant names its target `library::function`,
/// and (unless `lib`) no library is loaded.
pub open spec fn node_ok(n: ArcNode, lib: bool) -> bool
    decreases n,
{
    match n {
        ArcNode::Constant(v) => value_ok(v, lib),
        ArcNode::Load(_, _) => true,
        ArcNode::Store(_, v) => node_ok(*v, lib),
        ArcNode::Suffix(_, a, b) => node_ok(*a, lib) && node_ok(*b, lib),
        ArcNode::Conditional(c, body, alt) => node_ok(*c, lib)
            && (forall|i: int| 0 <= i < body@.len() ==> node_ok(#[trigger] body@[i], lib))
            && (forall|i: int| 0 <= i < alt@.len() ==> node_ok(#[trigger] alt@[i], lib)),
        ArcNode::Function(_, _, _, body) => forall|i: int| 0 <= i < body@.len() ==> node_ok(#[trigger] body@[i], lib),
        ArcNode::Call(callee, args) => (match *callee {
            ArcNode::Constant(e) => occurs_somewhere(value_text(e), "::"@),
            _ => node_ok(*callee, lib),
        }) && (forall|i: int| 0 <= i < args@.len() ==> node_ok(#[trigger] args@[i], lib)),
        ArcNode::While(c, body) => node_ok(*c, lib)
            && (forall|i: int| 0 <= i < body@.len() ==> node_ok(#[trigger] body@[i], lib)),
        ArcNode::Index(a, b) => node_ok(*a, lib) && node_ok(*b, lib),
        ArcNode::Slice(a, b, c) => node_ok(*a, lib) && node_ok(*b, lib) && node_ok(*c, lib),
        ArcNode::Push(a, b) => node_ok(*a, lib) && node_ok(*b, lib),
        ArcNode::Copy(_) => true,
        ArcNode::LoadLib(_, _) => lib,
        ArcNode::Return(v) => node_ok(*v, lib),
        ArcNode::Assign(a, b) => node_ok(*a, lib) && node_ok(*b, lib),
        ArcNode::Pop(a, b) => node_ok(*a, lib) && node_ok(*b, lib),
        ArcNode::Length(a) => node_ok(*a, lib),
        ArcNode::And(a, b) => node_ok(*a, lib) && node_ok(*b, lib),
        ArcNode::Or(a, b) => node_ok(*a, lib) && node_ok(*b, lib),
        ArcNode::Compound => true,
    }
}

/// Whether a value can be compiled (see `node_ok`).
pub open spec fn value_ok(v: ArcValue, lib: bool) -> bool
    decreases v,
{
    match v {
        ArcValue::Function(_, _, body) => forall|i: int| 0 <= i < body@.len() ==> node_ok(#[trigger] body@[i], lib),
        ArcValue::Compound(items) => forall|i: int| 0 <= i < items@.len() ==> value_ok(#[trigger] items@[i], lib),
        ArcValue::Array(items) => forall|i: int| 0 <= i < items@.len() ==> value_ok(#[trigger] items@[i], lib),
        _ => true,
    }
}

/// Whether every node of a list can be compiled.
pub open spec fn all_ok(s: Seq<ArcNode>, lib: bool) -> bool {
    forall|i: int| 0 <= i < s.len() ==> node_ok(#[trigger] s[i], lib)
}

/// The Lua text of a value, compiled while the statement flag is `f`, and the flag after it.
pub open spec fn value_lua(v: ArcValue, f: bool) -> (Seq<char>, bool)
    decreases v,
{
    match v {
        ArcValue::Void => ("null"@, f),
        ArcValue::Integer(i) => (int_digits(i as int), f),
        ArcValue::Boolean(b) => (if b { "true"@ } else { "false"@ }, f),
        ArcValue::Character(c) => ("\""@ + seq![c] + "\""@, f),
        ArcValue::Float(t) => (t@, f),
        ArcValue::Function(count, id, body) => {
            let b = nodes_lua(body@, f);
            ("(function("@ + params_lua(id as int, count as nat) + ") "@ + b.0 + "end)"@, b.1)
        },
        ArcValue::Compound(items) => {
            let t = fields_lua(items@, f);
            ("({"@ + t.0 + "})"@, t.1)
        },
        ArcValue::Array(items) => if items@.len() > 0 && items@[0] is Character {
            ("\""@ + char_text(items@) + "\""@, f)
        } else {
            let t = items_lua(items@, f);
            ("setmetatable({"@ + t.0 + array_end(), t.1)
        },
    }
}

/// The values of a list, separated by commas.
pub open spec fn items_lua(s: Seq<ArcValue>, f: bool) -> (Seq<char>, bool)
    decreases s,
{
    if s.len() == 0 {
        (Seq::empty(), f)
    } else if s.len() == 1 {
        value_lua(s[0], f)
    } else {
        let p = items_lua(s.subrange(0, s.len() - 1), f);
        let t = value_lua(s[s.len() - 1], p.1);
        (p.0 + ","@ + t.0, t.1)
    }
}

/// The field `k` of a class instance.
pub open spec fn field_prefix(k: int) -> Seq<char> {
    "["@ + int_digits(k) + " + 1] = "@
}

/// The fields of a class instance, each as `[<k> + 1] = <value>`, separated by commas.
pub open spec fn fields_lua(s: Seq<ArcValue>, f: bool) -> (Seq<char>, bool)
    decreases s,
{
    if s.len() == 0 {
        (Seq::empty(), f)
    } else if s.len() == 1 {
        let t = value_lua(s[0], f);
        (field_prefix(0) + t.0, t.1)
    } else {
        let p = fields_lua(s.subrange(0, s.len() - 1), f);
        let t = value_lua(s[s.len() - 1], p.1);
        (p.0 + ","@ + field_prefix(s.len() - 1) + t.0, t.1)
    }
}

/// The nodes of a list, each followed by a semicolon.
pub open spec fn nodes_lua(s: Seq<ArcNode>, f: bool) -> (Seq<char>, bool)
    decreases s,
{
    if s.len() == 0 {
        (Seq::empty(), f)
    } else {
        let p = nodes_lua(s.subrange(0, s.len() - 1), f);
        let t = node_lua(s[s.len() - 1], p.1);
        (p.0 + t.0 + ";"@, t.1)
    }
}

/// The nodes of a list, separated by commas.
pub open spec fn args_lua(s: Seq<ArcNode>, f: bool) -> (Seq<char>, bool)
    decreases s,
{
    if s.len() == 0 {
        (Seq::empty(), f)
    } else if s.len() == 1 {
        node_lua(s[0], f)
    } else {
        let p = args_lua(s.subrange(0, s.len() - 1), f);
        let t = node_lua(s[s.len() - 1], p.1);
        (p.0 + ","@ + t.0, t.1)
    }
}

/// The Lua text of a node, compiled while the statement flag is `f` (inside the value of a
/// store or return), and the flag after it. Loading a library has no text here: it depends on
/// the library.
pub open spec fn node_lua(n: ArcNode, f: bool) -> (Seq<char>, bool)
    decreases n,
{
    match n {
        ArcNode::Constant(v) => value_lua(v, f),
        ArcNode::Load(LoadType::Variable, idx) => ("var_"@ + nat_digits(idx as nat), f),
        ArcNode::Load(LoadType::Parameter(u), idx) => ("param_"@ + int_digits(u as int) + "_"@ + nat_digits(idx as nat), f),
        ArcNode::Store(idx, v) => ("var_"@ + nat_digits(idx as nat) + " = "@ + node_lua(*v, true).0, false),
        ArcNode::Suffix(op, a, b) => {
            let x = node_lua(*a, f);
            let y = node_lua(*b, x.1);
            ("("@ + x.0 + op_lua(op) + y.0 + ")"@, y.1)
        },
        ArcNode::Conditional(c, body, alt) => {
            let ct = node_lua(*c, f);
            let bt = nodes_lua(body@, ct.1);
            let at = nodes_lua(alt@, bt.1);
            (
                (if f { "(function() if "@ } else { "if "@ }) + ct.0 + " then "@ + bt.0
                    + (if alt@.len() > 0 { " else "@ + at.0 } else { Seq::empty() })
                    + (if f { " end end)()"@ } else { " end"@ }),
                if alt@.len() > 0 { at.1 } else { bt.1 },
            )
        },
        ArcNode::Function(name, uid, count, body) => {
            let bt = nodes_lua(body@, f);
            (
                (if name@.len() == 0 { "("@ } else { Seq::empty() }) + "function"@
                    + (if name@.len() == 0 { Seq::empty() } else { " "@ + name@ })
                    + "("@ + params_lua(uid as int, count as nat) + ") "@ + bt.0 + "end"@
                    + (if name@.len() == 0 { ")"@ } else { Seq::empty() }),
                bt.1,
            )
        },
        ArcNode::Call(callee, args) => match *callee {
            ArcNode::Constant(e) => {
                let lib = before_sep(value_text(e));
                let fun = after_sep(value_text(e));
                let printing = fun == "println"@ || fun == "print"@;
                let at = args_lua(args@, f);
                (
                    (if printing { lib + "."@ + fun + "("@ } else { "(function() local res = "@ + lib + "."@ + fun + "("@ })
                        + at.0 + (if printing { ")"@ } else { native_call_end() }),
                    at.1,
                )
            },
            _ => {
                let ct = node_lua(*callee, f);
                let at = args_lua(args@, ct.1);
                (ct.0 + "("@ + at.0 + ")"@, at.1)
            },
        },
        ArcNode::While(c, body) => {
            let ct = node_lua(*c, f);
            let bt = nodes_lua(body@, ct.1);
            ("(function() while "@ + ct.0 + " do "@ + bt.0 + " end end)()"@, bt.1)
        },
        ArcNode::Index(a, b) => {
            let x = node_lua(*a, f);
            let y = node_lua(*b, x.1);
            (x.0 + "["@ + y.0 + " + 1]"@, y.1)
        },
        ArcNode::Slice(s, from, to) => {
            let s1 = node_lua(*s, f);
            let s2 = node_lua(*s, s1.1);
            let f1 = node_lua(*from, s2.1);
            let t1 = node_lua(*to, f1.1);
            let f2 = node_lua(*from, t1.1);
            let t2 = node_lua(*to, f2.1);
            let s3 = node_lua(*s, t2.1);
            let s4 = node_lua(*s, s3.1);
            (
                "(function() if type("@ + s1.0 + ") == \"string\" then return "@ + s2.0 + "("@ + f1.0 + "+1,"@
                    + t1.0 + "+1) else local temp_sliced = {} for i = "@ + f2.0 + "+1, "@ + t2.0 + "+1 or #"@
                    + s3.0 + ", 1 do temp_sliced[#temp_sliced+1] = "@ + s4.0 + "[i] end return temp_sliced end end)()"@,
                s4.1,
            )
        },
        ArcNode::Push(a, b) => {
            let x = node_lua(*a, f);
            let y = node_lua(*b, x.1);
            (x.0 + " .. "@ + y.0, y.1)
        },
        ArcNode::Copy(_) => (Seq::empty(), f),
        ArcNode::LoadLib(_, _) => (Seq::empty(), f),
        ArcNode::Return(v) => ("return "@ + node_lua(*v, true).0, false),
        ArcNode::Assign(a, b) => {
            let x = node_lua(*a, f);
            let y = node_lua(*b, x.1);
            (x.0 + " = "@ + y.0, y.1)
        },
        ArcNode::Pop(a, b) => {
            let x = node_lua(*a, f);
            let y = node_lua(*b, x.1);
            ("table.remove("@ + x.0 + ","@ + y.0 + "+ 1)"@, y.1)
        },
        ArcNode::Length(a) => {
            let x = node_lua(*a, f);
            ("#"@ + x.0, x.1)
        },
        ArcNode::And(a, b) => {
            let x = node_lua(*a, f);
            let y = node_lua(*b, x.1);
            ("("@ + x.0 + ") and ("@ + y.0 + ")"@, y.1)
        },
        ArcNode::Or(a, b) => {
            let x = node_lua(*a, f);
            let y = node_lua(*b, x.1);
            ("("@ + x.0 + ") or ("@ + y.0 + ")"@, y.1)
        },
        ArcNode::Compound => (Seq::empty(), f),
    }
}

/// The first half of a slice: the test for a string and the string case, then the start of
/// the array case; and the flag after it.
pub open spec fn slice_head(s: ArcNode, from: ArcNode, to: ArcNode, f: bool) -> (Seq<char>, bool) {
    let s1 = node_lua(s, f);
    let s2 = node_lua(s, s1.1);
    let f1 = node_lua(from, s2.1);
    let t1 = node_lua(to, f1.1);
    (
        "(function() if type("@ + s1.0 + ") == \"string\" then return "@ + s2.0 + "("@ + f1.0 + "+1,"@
            + t1.0 + "+1) else local temp_sliced = {} for i = "@,
        t1.1,
    )
}

/// The second half of a slice: the copy of the array's range; and the flag after it.
pub open spec fn slice_tail(s: ArcNode, from: ArcNode, to: ArcNode, f: bool) -> (Seq<char>, bool) {
    let f2 = node_lua(from, f);
    let t2 = node_lua(to, f2.1);
    let s3 = node_lua(s, t2.1);
    let s4 = node_lua(s, s3.1);
    (
        f2.0 + "+1, "@ + t2.0 + "+1 or #"@ + s3.0 + ", 1 do temp_sliced[#temp_sliced+1] = "@ + s4.0
            + "[i] end return temp_sliced end end)()"@,
        s4.1,
    )
}

#[verifier::rlimit(40)]
#[verifier::spinoff_prover]
proof fn lemma_slice_parts(n: ArcNode, f: bool)
    requires
        n is Slice,
    ensures
        ({
            let h = slice_head(*n->Slice_0, *n->Slice_1, *n->Slice_2, f);
            let t = slice_tail(*n->Slice_0, *n->Slice_1, *n->Slice_2, h.1);
            node_lua(n, f).0 == h.0 + t.0 && node_lua(n, f).1 == t.1
        }),
{
    let h = slice_head(*n->Slice_0, *n->Slice_1, *n->Slice_2, f);
    let t = slice_tail(*n->Slice_0, *n->Slice_1, *n->Slice_2, h.1);
    assert(node_lua(n, f).0 =~= h.0 + t.0);
}

/// The operands of a two-operand node and its opening, middle and closing texts.
pub open spec fn pair_parts(n: ArcNode) -> (ArcNode, ArcNode, Seq<char>, Seq<char>, Seq<char>) {
    match n {
        ArcNode::Suffix(op, a, b) => (*a, *b, "("@, op_lua(op), ")"@),
        ArcNode::Index(a, b) => (*a, *b, Seq::empty(), "["@, " + 1]"@),
        ArcNode::Push(a, b) => (*a, *b, Seq::empty(), " .. "@, Seq::empty()),
        ArcNode::Assign(a, b) => (*a, *b, Seq::empty(), " = "@, Seq::empty()),
        ArcNode::Pop(a, b) => (*a, *b, "table.remove("@, ","@, "+ 1)"@),
        ArcNode::And(a, b) => (*a, *b, "("@, ") and ("@, ")"@),
        ArcNode::Or(a, b) => (*a, *b, "("@, ") or ("@, ")"@),
        _ => (n, n, Seq::empty(), Seq::empty(), Seq::empty()),
    }
}

/// Whether a node has two operands between an opening, a middle and a closing text.
pub open spec fn is_pair(n: ArcNode) -> bool {
    n is Suffix || n is Index || n is Push || n is Assign || n is Pop || n is And || n is Or
}

proof fn lemma_pair_lua(n: ArcNode, f: bool)
    requires
        is_pair(n),
    ensures
        ({
            let p = pair_parts(n);
            let x = node_lua(p.0, f);
            let y = node_lua(p.1, x.1);
            &&& node_lua(n, f).0 == p.2 + x.0 + p.3 + y.0 + p.4
            &&& node_lua(n, f).1 == y.1
            &&& (node_ok(n, true) ==> node_ok(p.0, true) && node_ok(p.1, true))
            &&& (node_ok(n, false) <==> node_ok(p.0, false) && node_ok(p.1, false))
        }),
{
    let p = pair_parts(n);
    let x = node_lua(p.0, f);
    let y = node_lua(p.1, x.1);
    assert(node_lua(n, f).0 =~= p.2 + x.0 + p.3 + y.0 + p.4);
}

/// Top-level nodes, each followed by a semicolon unless it declares a class.
pub open spec fn stmts_lua(s: Seq<ArcNode>, f: bool) -> (Seq<char>, bool)
    decreases s.len(),
{
    if s.len() == 0 {
        (Seq::empty(), f)
    } else {
        let p = stmts_lua(s.subrange(0, s.len() - 1), f);
        let t = node_lua(s[s.len() - 1], p.1);
        (p.0 + t.0 + (if s[s.len() - 1] is Compound { Seq::empty() } else { ";"@ }), t.1)
    }
}

/// Whether the value of the last top-level node is printed (it is not a store or assignment).
pub open spec fn printed(n: ArcNode) -> bool {
    !(n is Store || n is Assign)
}

/// The Lua text of a program: its nodes, the last one printed unless it stores a value.
pub open spec fn global_lua(s: Seq<ArcNode>, f: bool) -> (Seq<char>, bool) {
    if s.len() == 0 {
        (Seq::empty(), f)
    } else {
        let p = stmts_lua(s.subrange(0, s.len() - 1), f);
        let last = s[s.len() - 1];
        let t = node_lua(last, p.1);
        (p.0 + (if printed(last) { "print("@ + t.0 + ")"@ } else { t.0 }), t.1)
    }
}

/// The code every Lua program starts with: the FFI module, and indexing and slicing of
/// strings.
pub open spec fn lua_prelude() -> Seq<char> {
    "ffi = require(\"ffi\")\ngetmetatable('').__index = function(str,i) return string.sub(str,i,i) end\ngetmetatable('').__call = function(str,i,j) if type(i)~='table' then return string.sub(str,i,j) end end\n"@
}

/// Why Lua code could not be generated.
pub enum LuaFailure {
    /// The signatures of the native library at this path are needed and not known yet.
    MissingSignature(String),
    /// A runtime error, with its message.
    Runtime(String),
}

/// Generates Lua code from Arc nodes.
pub struct LuaBackend {
    pub code: String,
    /// Whether a store or return value is being compiled (an `if` then becomes a function
    /// that is called at once).
    pub doing_statement: bool,
    pub library_paths: Vec<String>,
    pub library_names: Vec<String>,
    /// Warnings to show, in order.
    pub warnings: Vec<String>,
    /// The signatures of native libraries by path, or why they could not be read.
    pub signatures: Vec<(String, Result<String, String>)>,
    /// The file extension of native libraries on this platform.
    pub library_extension: String,
}

/// The state of the loaded libraries is the same in both backends.
pub open spec fn same_libraries(a: &LuaBackend, b: &LuaBackend) -> bool {
    &&& b.library_paths == a.library_paths
    &&& b.library_names == a.library_names
    &&& b.warnings == a.warnings
    &&& b.signatures == a.signatures
    &&& b.library_extension == a.library_extension
}

/// The warning given when a library is loaded twice.
pub open spec fn already_loaded_warning() -> Seq<char> {
    "RuntimeWarning: Library is already loaded"@
}

/// The error when a library name is bound twice.
pub open spec fn alias_in_use(name: Seq<char>) -> Seq<char> {
    "The libary alias "@ + name + ", is already in use"@
}

proof fn lemma_first_sep(s: Seq<char>, k: int)
    requires
        occurs_at(s, "::"@, k),
        forall|j: int| 0 <= j < k ==> !occurs_at(s, "::"@, j),
    ensures
        (choose|m: int| occurs_at(s, "::"@, m) && forall|j: int| 0 <= j < m ==> !occurs_at(s, "::"@, j)) == k,
{
    let m = choose|m: int| occurs_at(s, "::"@, m) && forall|j: int| 0 <= j < m ==> !occurs_at(s, "::"@, j);
    assert(occurs_at(s, "::"@, m) && forall|j: int| 0 <= j < m ==> !occurs_at(s, "::"@, j));
    if m < k {
        assert(!occurs_at(s, "::"@, m));
    } else if k < m {
        assert(!occurs_at(s, "::"@, k));
    }
}

/// The text of a value that is an array of characters.
fn value_text_of(v: &ArcValue) -> (r: String)
    ensures
        r@ == value_text(*v),
{
    let mut out = String::new();
    if let ArcValue::Array(items) = v {
        let mut i: usize = 0;
        while i < items.len()
            invariant
                i <= items@.len(),
                out@ == plain_chars(items@.subrange(0, i as int)),
            decreases items.len() - i,
        {
            assert(items@.subrange(0, i + 1).subrange(0, i as int) =~= items@.subrange(0, i as int));
            if let ArcValue::Character(c) = &items[i] {
                push_char(&mut out, *c);
            }
            i = i + 1;
        }
        assert(items@.subrange(0, items@.len() as int) =~= items@);
    }
    out
}

/// The library and function of a native call `library::function`.
fn split_call(name: &str) -> (r: (String, String))
    requires
        occurs_somewhere(name@, "::"@),
    ensures
        r.0@ == before_sep(name@),
        r.1@ == after_sep(name@),
{
    let chars = str_to_chars(name);
    let sep: Vec<char> = vec![':', ':'];
    proof {
        reveal_strlit("::");
        assert(sep@ =~= "::"@);
    }
    match find_from(chars.as_slice(), sep.as_slice(), 0) {
        Some(k) => {
            proof { lemma_first_sep(name@, k as int); }
            let total = chars.len();
            assert(k + 2 <= total);
            let lib = chars_range(chars.as_slice(), 0, k);
            let start = k + 2;
            let rest = chars_range(chars.as_slice(), start, total);
            let rest_chars = str_to_chars(rest.as_str());
            let fun = match find_from(rest_chars.as_slice(), sep.as_slice(), 0) {
                Some(e) => {
                    proof {
                        lemma_first_sep(rest@, e as int);
                        assert(occurs_somewhere(rest@, "::"@));
                    }
                    chars_range(rest_chars.as_slice(), 0, e)
                },
                None => {
                    proof {
                        assert(rest_chars@.subrange(0, rest_chars@.len() as int) =~= rest_chars@);
                    }
                    chars_range(rest_chars.as_slice(), 0, rest_chars.len())
                },
            };
            (lib, fun)
        },
        None => {
            proof {
                let j = choose|j: int| occurs_at(name@, "::"@, j);
            }
            (String::new(), String::new())
        },
    }
}

/// The signature recorded for a library path.
/// The signatures recorded for the first entry of `table` with this path, or why they could
/// not be read.
pub open spec fn signature_of(table: Seq<(String, Result<String, String>)>, path: Seq<char>)
    -> Option<Result<Seq<char>, Seq<char>>>
    decreases table.len(),
{
    if table.len() == 0 {
        None
    } else if table[0].0@ == path {
        Some(match table[0].1 {
            Ok(sig) => Ok(sig@),
            Err(msg) => Err(msg@),
        })
    } else {
        signature_of(table.skip(1), path)
    }
}

/// `new` is `old` after loading the native library at `path` under `namespace`, with result
/// `r`: without known signatures, `MissingSignature`; when they could not be read, that
/// reason; otherwise the path is recorded (a warning when it was loaded before), and a name
/// already bound is refused, else it is bound and the library declared and loaded.
pub open spec fn library_loaded(old: &LuaBackend, new: &LuaBackend, path: Seq<char>, namespace: Seq<char>,
    r: Result<(), LuaFailure>) -> bool {
    &&& new.signatures == old.signatures
    &&& new.library_extension == old.library_extension
    &&& new.doing_statement == old.doing_statement
    &&& match signature_of(old.signatures@, path) {
        None => (r matches Err(LuaFailure::MissingSignature(p)) && p@ == path) && *new == *old,
        Some(Err(message)) => (r matches Err(LuaFailure::Runtime(m)) && m@ == message) && *new == *old,
        Some(Ok(signature)) => {
            let seen = exists|i: int| 0 <= i < old.library_paths@.len() && (#[trigger] old.library_paths@[i])@ == path;
            let bound = exists|i: int| 0 <= i < old.library_names@.len() && (#[trigger] old.library_names@[i])@ == namespace;
            &&& new.library_paths@.len() == old.library_paths@.len() + 1
            &&& new.library_paths@.last()@ == path
            &&& new.library_paths@.drop_last() == old.library_paths@
            &&& (seen ==> new.warnings@ == old.warnings@.push(new.warnings@.last())
                && new.warnings@.last()@ == already_loaded_warning())
            &&& (!seen ==> new.warnings == old.warnings)
            &&& (bound ==> (r matches Err(LuaFailure::Runtime(m)) && m@ == alias_in_use(namespace))
                && new.code == old.code && new.library_names == old.library_names)
            &&& (!bound ==> r is Ok && new.library_names@.len() == old.library_names@.len() + 1
                && new.library_names@.last()@ == namespace
                && new.library_names@.drop_last() == old.library_names@
                && new.code@ == old.code@ + library_load_lua(signature, namespace, path, old.library_extension@))
        },
    }
}

/// The Lua code that declares a native library's signatures and binds it to a name.
pub open spec fn library_load_lua(signature: Seq<char>, namespace: Seq<char>, path: Seq<char>, extension: Seq<char>)
    -> Seq<char>
{
    "ffi.cdef[[ "@ + signature + " ]]\n"@ + namespace + " = ffi.load(\""@ + path + "."@ + extension + "\")"@
}

fn find_signature(table: &Vec<(String, Result<String, String>)>, path: &str) -> (r: Option<Result<String, String>>)
    ensures
        match r {
            None => signature_of(table@, path@) is None,
            Some(Ok(sig)) => signature_of(table@, path@) == Some(Ok::<Seq<char>, Seq<char>>(sig@)),
            Some(Err(msg)) => signature_of(table@, path@) == Some(Err::<Seq<char>, Seq<char>>(msg@)),
        },
{
    let mut i: usize = 0;
    assert(table@.skip(0) =~= table@);
    while i < table.len()
        invariant
            i <= table.len(),
            signature_of(table@, path@) == signature_of(table@.skip(i as int), path@),
        decreases table.len() - i,
    {
        assert(table@.skip(i as int).skip(1) =~= table@.skip(i + 1));
        assert(table@.skip(i as int)[0] == table@[i as int]);
        if str_eq(table[i].0.as_str(), path) {
            return Some(match &table[i].1 {
                Ok(sig) => Ok(sig.clone()),
                Err(msg) => Err(msg.clone()),
            });
        }
        i = i + 1;
    }
    None
}

impl LuaBackend {
    /// A backend whose code is the prelude, with the signatures of native libraries and their
    /// file extension on this platform.
    pub fn new(signatures: Vec<(String, Result<String, String>)>, library_extension: String) -> (r: LuaBackend)
        ensures
            r.code@ == lua_prelude(),
            !r.doing_statement,
            r.library_paths@.len() == 0,
            r.library_names@.len() == 0,
            r.warnings@.len() == 0,
            r.signatures == signatures,
            r.library_extension == library_extension,
    {
        LuaBackend {
            code: owned("ffi = require(\"ffi\")\ngetmetatable('').__index = function(str,i) return string.sub(str,i,i) end\ngetmetatable('').__call = function(str,i,j) if type(i)~='table' then return string.sub(str,i,j) end end\n"),
            doing_statement: false,
            library_paths: Vec::new(),
            library_names: Vec::new(),
            warnings: Vec::new(),
            signatures,
            library_extension,
        }
    }

    /// Appends code.
    pub fn add_code(&mut self, code: String)
        ensures
            final(self).code@ == old(self).code@ + code@,
            final(self).doing_statement == old(self).doing_statement,
            same_libraries(old(self), final(self)),
    {
        append_str(&mut self.code, code.as_str());
    }

    /// Appends code.
    pub fn add_code_str(&mut self, code: &str)
        ensures
            final(self).code@ == old(self).code@ + code@,
            final(self).doing_statement == old(self).doing_statement,
            same_libraries(old(self), final(self)),
    {
        append_str(&mut self.code, code);
    }

    fn add_char(&mut self, c: char)
        ensures
            final(self).code@ == old(self).code@.push(c),
            final(self).doing_statement == old(self).doing_statement,
            same_libraries(old(self), final(self)),
    {
        push_char(&mut self.code, c);
    }

    /// Records a loaded library; loading one twice gives a warning.
    pub fn add_library_path(&mut self, lib_path: String)
        ensures
            final(self).library_paths@ == old(self).library_paths@.push(lib_path),
            (exists|i: int| 0 <= i < old(self).library_paths@.len() && (#[trigger] old(self).library_paths@[i])@ == lib_path@)
                ==> final(self).warnings@ == old(self).warnings@.push(final(self).warnings@.last())
                    && final(self).warnings@.last()@ == already_loaded_warning(),
            !(exists|i: int| 0 <= i < old(self).library_paths@.len() && (#[trigger] old(self).library_paths@[i])@ == lib_path@)
                ==> final(self).warnings == old(self).warnings,
            final(self).code == old(self).code,
            final(self).doing_statement == old(self).doing_statement,
            final(self).library_names == old(self).library_names,
            final(self).signatures == old(self).signatures,
            final(self).library_extension == old(self).library_extension,
    {
        if crate::text::contains_string(&self.library_paths, lib_path.as_str()) {
            self.warnings.push(owned("RuntimeWarning: Library is already loaded"));
        }
        self.library_paths.push(lib_path);
    }

    /// Binds a library name; a name can be bound only once.
    pub fn add_library_namespace(&mut self, lib_name: String) -> (r: Result<(), LuaFailure>)
        ensures
            (exists|i: int| 0 <= i < old(self).library_names@.len() && (#[trigger] old(self).library_names@[i])@ == lib_name@)
                ==> (r matches Err(LuaFailure::Runtime(m)) && m@ == alias_in_use(lib_name@)) && *final(self) == *old(self),
            !(exists|i: int| 0 <= i < old(self).library_names@.len() && (#[trigger] old(self).library_names@[i])@ == lib_name@)
                ==> r is Ok && final(self).library_names@ == old(self).library_names@.push(lib_name),
            final(self).code == old(self).code,
            final(self).doing_statement == old(self).doing_statement,
            final(self).library_paths == old(self).library_paths,
            final(self).warnings == old(self).warnings,
            final(self).signatures == old(self).signatures,
            final(self).library_extension == old(self).library_extension,
    {
        if crate::text::contains_string(&self.library_names, lib_name.as_str()) {
            let mut m = owned("The libary alias ");
            append_str(&mut m, lib_name.as_str());
            append_str(&mut m, ", is already in use");
            return Err(LuaFailure::Runtime(m));
        }
        self.library_names.push(lib_name);
        Ok(())
    }

    /// Appends the names of a function's first `count` parameters, separated by commas.
    fn write_params(&mut self, uid: i64, count: usize)
        ensures
            final(self).code@ == old(self).code@ + params_lua(uid as int, count as nat),
            final(self).doing_statement == old(self).doing_statement,
            same_libraries(old(self), final(self)),
    {
        let ghost c0 = self.code@;
        let u = i64_to_string(uid);
        let mut index: usize = 0;
        while index < count
            invariant
                index <= count,
                u@ == int_digits(uid as int),
                self.code@ == c0 + params_lua(uid as int, index as nat)
                    + (if 0 < index && index < count { ","@ } else { Seq::<char>::empty() }),
                self.doing_statement == old(self).doing_statement,
                same_libraries(old(self), self),
            decreases count - index,
        {
            let ghost before = self.code@;
            let n = u64_to_string(index as u64);
            self.add_code_str("param_");
            self.add_code_str(u.as_str());
            self.add_code_str("_");
            self.add_code_str(n.as_str());
            proof {
                assert(int_digits(index as int) == nat_digits(index as nat));
                if index == 0 {
                    assert(self.code@ =~= c0 + params_lua(uid as int, 1));
                } else {
                    assert(self.code@ =~= c0 + params_lua(uid as int, (index + 1) as nat));
                }
            }
            index = index + 1;
            if index != count {
                self.add_code_str(",");
            }
        }
    }
}

impl LuaBackend {
    /// Appends the Lua form of a constant.
    pub fn add_constant_value(&mut self, value: &ArcValue) -> (r: Result<(), LuaFailure>)
        requires
            value_ok(*value, true),
        ensures
            value_ok(*value, false) ==> r is Ok
                && final(self).code@ == old(self).code@ + value_lua(*value, old(self).doing_statement).0
                && final(self).doing_statement == value_lua(*value, old(self).doing_statement).1
                && same_libraries(old(self), final(self)),
        decreases value, 1nat,
    {
        let ghost c0 = self.code@;
        let ghost f0 = self.doing_statement;
        let ghost exact = value_ok(*value, false);
        match value {
            ArcValue::Void => {
                self.add_code_str("null");
            },
            ArcValue::Integer(i) => {
                let t = i64_to_string(*i);
                self.add_code(t);
            },
            ArcValue::Boolean(b) => {
                if *b {
                    self.add_code_str("true");
                } else {
                    self.add_code_str("false");
                }
            },
            ArcValue::Character(c) => {
                self.add_code_str("\"");
                self.add_char(*c);
                self.add_code_str("\"");
                proof { assert(self.code@ =~= c0 + ("\""@ + seq![*c] + "\""@)); }
            },
            ArcValue::Float(t) => {
                self.add_code_str(t.as_str());
            },
            ArcValue::Function(count, id, body) => {
                self.add_code_str("(function(");
                self.write_params(*id, *count);
                self.add_code_str(") ");
                let ghost c1 = self.code@;
                self.compile_nodes(body)?;
                self.add_code_str("end)");
                proof {
                    if exact {
                        assert(self.code@ =~= c0 + value_lua(*value, f0).0);
                    }
                }
            },
            ArcValue::Compound(items) => {
                self.add_code_str("({");
                self.add_fields(items)?;
                self.add_code_str("})");
                proof {
                    if exact {
                        assert(self.code@ =~= c0 + value_lua(*value, f0).0);
                    }
                }
            },
            ArcValue::Array(items) => {
                let is_chars = items.len() > 0 && match &items[0] {
                    ArcValue::Character(_) => true,
                    _ => false,
                };
                if is_chars {
                    let mut text = String::new();
                    let mut i: usize = 0;
                    while i < items.len()
                        invariant
                            i <= items@.len(),
                            text@ == char_text(items@.subrange(0, i as int)),
                        decreases items.len() - i,
                    {
                        assert(items@.subrange(0, i + 1).subrange(0, i as int) =~= items@.subrange(0, i as int));
                        if let ArcValue::Character(c) = &items[i] {
                            if *c == '\n' {
                                push_char(&mut text, '\\');
                            }
                            push_char(&mut text, *c);
                            proof {
                                if *c == '\n' {
                                    assert(text@ =~= char_text(items@.subrange(0, i as int)) + seq!['\\', *c]);
                                } else {
                                    assert(text@ =~= char_text(items@.subrange(0, i as int)) + seq![*c]);
                                }
                            }
                        } else {
                            assert(text@ =~= char_text(items@.subrange(0, i as int)) + Seq::<char>::empty());
                        }
                        i = i + 1;
                    }
                    assert(items@.subrange(0, items@.len() as int) =~= items@);
                    self.add_code_str("\"");
                    self.add_code(text);
                    self.add_code_str("\"");
                    proof { assert(self.code@ =~= c0 + value_lua(*value, f0).0); }
                } else {
                    self.add_code_str("setmetatable({");
                    self.add_items(items)?;
                    self.add_code_str("}, { __concat = function(a, b) return table.insert(a, b) end })");
                    proof {
                        if exact {
                            assert(self.code@ =~= c0 + value_lua(*value, f0).0);
                        }
                    }
                }
            },
        }
        Ok(())
    }

    /// Appends the Lua form of each value, separated by commas, each as the class field `[<k> + 1] = <value>`.
    #[verifier::rlimit(60)]
    fn add_fields(&mut self, items: &Vec<ArcValue>) -> (r: Result<(), LuaFailure>)
        requires
            forall|i: int| 0 <= i < items@.len() ==> value_ok(#[trigger] items@[i], true),
        ensures
            (forall|i: int| 0 <= i < items@.len() ==> value_ok(#[trigger] items@[i], false)) ==> r is Ok
                && final(self).code@ == old(self).code@ + fields_lua(items@, old(self).doing_statement).0
                && final(self).doing_statement == fields_lua(items@, old(self).doing_statement).1
                && same_libraries(old(self), final(self)),
        decreases items, 1nat,
    {
        let ghost c1 = self.code@;
        let ghost f0 = self.doing_statement;
        let ghost exact = forall|i: int| 0 <= i < items@.len() ==> value_ok(#[trigger] items@[i], false);
        let mut k: usize = 0;
        while k < items.len()
            invariant
                k <= items@.len(),
                forall|i: int| 0 <= i < items@.len() ==> value_ok(#[trigger] items@[i], true),
                exact == forall|i: int| 0 <= i < items@.len() ==> value_ok(#[trigger] items@[i], false),
                exact ==> self.code@ == c1 + fields_lua(items@.subrange(0, k as int), f0).0
                    + (if 0 < k && k < items@.len() { ","@ } else { Seq::<char>::empty() }),
                exact ==> self.doing_statement == fields_lua(items@.subrange(0, k as int), f0).1,
                exact ==> same_libraries(old(self), self),
            decreases items.len() - k,
        {
            let ghost before = self.code@;
            let n = u64_to_string(k as u64);
            self.add_code_str("[");
            self.add_code_str(n.as_str());
            self.add_code_str(" + 1] = ");
            proof { assert(int_digits(k as int) == nat_digits(k as nat)); }
            assert(value_ok(items@[k as int], true));
            self.add_constant_value(&items[k])?;
            proof {
                if exact {
                    assert(value_ok(items@[k as int], false));
                    let s = items@.subrange(0, k + 1);
                    assert(s.subrange(0, k as int) =~= items@.subrange(0, k as int));
                    assert(s[k as int] == items@[k as int]);
                    assert(self.code@ =~= c1 + fields_lua(s, f0).0);
                }
            }
            k = k + 1;
            if k != items.len() {
                self.add_code_str(",");
            }
        }
        proof {
            assert(items@.subrange(0, items@.len() as int) =~= items@);
        }
        Ok(())
    }

    /// Appends the Lua form of each value, separated by commas.
    #[verifier::rlimit(60)]
    fn add_items(&mut self, items: &Vec<ArcValue>) -> (r: Result<(), LuaFailure>)
        requires
            forall|i: int| 0 <= i < items@.len() ==> value_ok(#[trigger] items@[i], true),
        ensures
            (forall|i: int| 0 <= i < items@.len() ==> value_ok(#[trigger] items@[i], false)) ==> r is Ok
                && final(self).code@ == old(self).code@ + items_lua(items@, old(self).doing_statement).0
                && final(self).doing_statement == items_lua(items@, old(self).doing_statement).1
                && same_libraries(old(self), final(self)),
        decreases items, 1nat,
    {
        let ghost c1 = self.code@;
        let ghost f0 = self.doing_statement;
        let ghost exact = forall|i: int| 0 <= i < items@.len() ==> value_ok(#[trigger] items@[i], false);
        let mut k: usize = 0;
        while k < items.len()
            invariant
                k <= items@.len(),
                forall|i: int| 0 <= i < items@.len() ==> value_ok(#[trigger] items@[i], true),
                exact == forall|i: int| 0 <= i < items@.len() ==> value_ok(#[trigger] items@[i], false),
                exact ==> self.code@ == c1 + items_lua(items@.subrange(0, k as int), f0).0
                    + (if 0 < k && k < items@.len() { ","@ } else { Seq::<char>::empty() }),
                exact ==> self.doing_statement == items_lua(items@.subrange(0, k as int), f0).1,
                exact ==> same_libraries(old(self), self),
            decreases items.len() - k,
        {
            let ghost before = self.code@;
            assert(value_ok(items@[k as int], true));
            self.add_constant_value(&items[k])?;
            proof {
                if exact {
                    assert(value_ok(items@[k as int], false));
                    let s = items@.subrange(0, k + 1);
                    assert(s.subrange(0, k as int) =~= items@.subrange(0, k as int));
                    assert(s[k as int] == items@[k as int]);
                    assert(self.code@ =~= c1 + items_lua(s, f0).0);
                }
            }
            k = k + 1;
            if k != items.len() {
                self.add_code_str(",");
            }
        }
        proof {
            assert(items@.subrange(0, items@.len() as int) =~= items@);
        }
        Ok(())
    }

    /// Appends the Lua form of each node, each followed by a semicolon.
    pub fn compile_nodes(&mut self, nodes: &Vec<ArcNode>) -> (r: Result<(), LuaFailure>)
        requires
            all_ok(nodes@, true),
        ensures
            all_ok(nodes@, false) ==> r is Ok
                && final(self).code@ == old(self).code@ + nodes_lua(nodes@, old(self).doing_statement).0
                && final(self).doing_statement == nodes_lua(nodes@, old(self).doing_statement).1
                && same_libraries(old(self), final(self)),
        decreases nodes, 1nat,
    {
        let ghost c0 = self.code@;
        let ghost f0 = self.doing_statement;
        let ghost exact = all_ok(nodes@, false);
        let mut i: usize = 0;
        while i < nodes.len()
            invariant
                i <= nodes@.len(),
                all_ok(nodes@, true),
                exact == all_ok(nodes@, false),
                exact ==> self.code@ == c0 + nodes_lua(nodes@.subrange(0, i as int), f0).0,
                exact ==> self.doing_statement == nodes_lua(nodes@.subrange(0, i as int), f0).1,
                exact ==> same_libraries(old(self), self),
            decreases nodes.len() - i,
        {
            assert(node_ok(nodes@[i as int], true));
            self.compile_node(&nodes[i])?;
            self.add_code_str(";");
            proof {
                if exact {
                    assert(node_ok(nodes@[i as int], false));
                    let s = nodes@.subrange(0, i + 1);
                    assert(s.subrange(0, i as int) =~= nodes@.subrange(0, i as int));
                    assert(s[i as int] == nodes@[i as int]);
                    assert(self.code@ =~= c0 + nodes_lua(s, f0).0);
                }
            }
            i = i + 1;
        }
        proof {
            assert(nodes@.subrange(0, nodes@.len() as int) =~= nodes@);
        }
        Ok(())
    }

    /// Appends the Lua form of each argument, separated by commas.
    fn compile_args(&mut self, nodes: &Vec<ArcNode>) -> (r: Result<(), LuaFailure>)
        requires
            all_ok(nodes@, true),
        ensures
            all_ok(nodes@, false) ==> r is Ok
                && final(self).code@ == old(self).code@ + args_lua(nodes@, old(self).doing_statement).0
                && final(self).doing_statement == args_lua(nodes@, old(self).doing_statement).1
                && same_libraries(old(self), final(self)),
        decreases nodes, 1nat,
    {
        let ghost c0 = self.code@;
        let ghost f0 = self.doing_statement;
        let ghost exact = all_ok(nodes@, false);
        let mut i: usize = 0;
        while i < nodes.len()
            invariant
                i <= nodes@.len(),
                all_ok(nodes@, true),
                exact == all_ok(nodes@, false),
                exact ==> self.code@ == c0 + args_lua(nodes@.subrange(0, i as int), f0).0
                    + (if 0 < i && i < nodes@.len() { ","@ } else { Seq::<char>::empty() }),
                exact ==> self.doing_statement == args_lua(nodes@.subrange(0, i as int), f0).1,
                exact ==> same_libraries(old(self), self),
            decreases nodes.len() - i,
        {
            assert(node_ok(nodes@[i as int], true));
            self.compile_node(&nodes[i])?;
            proof {
                if exact {
                    assert(node_ok(nodes@[i as int], false));
                    let s = nodes@.subrange(0, i + 1);
                    assert(s.subrange(0, i as int) =~= nodes@.subrange(0, i as int));
                    assert(s[i as int] == nodes@[i as int]);
                    assert(self.code@ =~= c0 + args_lua(s, f0).0);
                }
            }
            i = i + 1;
            if i != nodes.len() {
                self.add_code_str(",");
            }
        }
        proof {
            assert(nodes@.subrange(0, nodes@.len() as int) =~= nodes@);
        }
        Ok(())
    }
}

impl LuaBackend {
    /// Appends the Lua form of a node. Loading a native library needs its signatures
    /// (`MissingSignature` when the backend has none for the path), and fails with the reason
    /// they could not be read, or when its name is already bound.
    pub fn compile_node(&mut self, node: &ArcNode) -> (r: Result<(), LuaFailure>)
        requires
            node_ok(*node, true),
        ensures
            node_ok(*node, false) ==> r is Ok
                && final(self).code@ == old(self).code@ + node_lua(*node, old(self).doing_statement).0
                && final(self).doing_statement == node_lua(*node, old(self).doing_statement).1
                && same_libraries(old(self), final(self)),
            *node is LoadLib ==> library_loaded(old(self), final(self), node->LoadLib_0@, node->LoadLib_1@, r),
        decreases node, 1nat,
    {
        let ghost c0 = self.code@;
        let ghost f0 = self.doing_statement;
        let ghost exact = node_ok(*node, false);
        match node {
            ArcNode::Constant(cst) => self.add_constant_value(cst),
            ArcNode::Load(load_type, index) => {
                let n = u64_to_string(*index);
                match load_type {
                    LoadType::Variable => {
                        self.add_code_str("var_");
                        self.add_code(n);
                    },
                    LoadType::Parameter(unique_identifier) => {
                        let u = i64_to_string(*unique_identifier);
                        self.add_code_str("param_");
                        self.add_code(u);
                        self.add_code_str("_");
                        self.add_code(n);
                        proof { assert(self.code@ =~= c0 + node_lua(*node, f0).0); }
                    },
                }
                Ok(())
            },
            ArcNode::Store(_, _) => self.compile_valued(node),
            ArcNode::Return(_) => self.compile_valued(node),
            ArcNode::Length(item) => {
                self.add_code_str("#");
                self.compile_node(item)?;
        proof {
            if exact {
                assert(self.code@ =~= c0 + node_lua(*node, f0).0);
            }
        }
                Ok(())
            },
            ArcNode::Conditional(_, _, _) => self.compile_conditional(node),
            ArcNode::While(_, _) => self.compile_while(node),
            ArcNode::Function(_, _, _, _) => self.compile_function_node(node),
            ArcNode::Call(_, _) => self.compile_call(node),
            ArcNode::Slice(_, _, _) => {
                self.compile_slice_head(node)?;
                self.compile_slice_tail(node)?;
                proof {
                    if exact {
                        lemma_slice_parts(*node, f0);
                        assert(self.code@ =~= c0 + node_lua(*node, f0).0);
                    }
                }
                Ok(())
            },
            ArcNode::LoadLib(path, namespace) => self.load_library(path, namespace),
            ArcNode::Copy(_) => Ok(()),
            ArcNode::Compound => Ok(()),
            ArcNode::Suffix(operation, a, b) => {
                let op = LuaBackend::op_text(operation);
                self.compile_pair(node, a, b, "(", op, ")")
            },
            ArcNode::Index(a, b) => {
                proof { reveal_strlit(""); assert(""@ =~= Seq::<char>::empty()); }
                self.compile_pair(node, a, b, "", "[", " + 1]")
            },
            ArcNode::Push(a, b) => {
                proof { reveal_strlit(""); assert(""@ =~= Seq::<char>::empty()); }
                self.compile_pair(node, a, b, "", " .. ", "")
            },
            ArcNode::Assign(a, b) => {
                proof { reveal_strlit(""); assert(""@ =~= Seq::<char>::empty()); }
                self.compile_pair(node, a, b, "", " = ", "")
            },
            ArcNode::Pop(a, b) => self.compile_pair(node, a, b, "table.remove(", ",", "+ 1)"),
            ArcNode::And(a, b) => self.compile_pair(node, a, b, "(", ") and (", ")"),
            ArcNode::Or(a, b) => self.compile_pair(node, a, b, "(", ") or (", ")"),
        }
    }

    /// A store (`var_<index> = <value>`) or a return (`return <value>`): the value is
    /// compiled as a statement value.
    fn compile_valued(&mut self, node: &ArcNode) -> (r: Result<(), LuaFailure>)
        requires
            node_ok(*node, true),
            node is Store || node is Return,
        ensures
            node_ok(*node, false) ==> r is Ok
                && final(self).code@ == old(self).code@ + node_lua(*node, old(self).doing_statement).0
                && final(self).doing_statement == node_lua(*node, old(self).doing_statement).1
                && same_libraries(old(self), final(self)),
        decreases node, 0nat,
    {
        let ghost c0 = self.code@;
        let ghost f0 = self.doing_statement;
        let ghost exact = node_ok(*node, false);
        self.doing_statement = true;
        match node {
            ArcNode::Store(index, value) => {
                let n = u64_to_string(*index);
                self.add_code_str("var_");
                self.add_code(n);
                self.add_code_str(" = ");
                match &**value {
                    ArcNode::Constant(v) => {
                        proof {
                            assert(node_ok(**value, true));
                            assert(value_ok(*v, true));
                            assert(exact ==> node_ok(**value, false));
                            assert(node_ok(**value, false) ==> value_ok(*v, false));
                            assert(node_lua(**value, true) == value_lua(*v, true));
                        }
                        self.add_constant_value(v)?;
                    },
                    other => {
                        self.compile_node(other)?;
                    },
                }
            },
            ArcNode::Return(value) => {
                self.add_code_str("return ");
                self.compile_node(value)?;
            },
            _ => {},
        }
        self.doing_statement = false;
        proof {
            if exact {
                assert(self.code@ =~= c0 + node_lua(*node, f0).0);
            }
        }
        Ok(())
    }

    /// Two operands between an opening, a middle and a closing text: binary operations,
    /// indexing, pushing, assigning, popping, `and` and `or`.
    fn compile_pair(&mut self, node: &ArcNode, a: &ArcNode, b: &ArcNode, open: &str, mid: &str, close: &str) -> (r: Result<(), LuaFailure>)
        requires
            node_ok(*node, true),
            is_pair(*node),
            pair_parts(*node) == (*a, *b, open@, mid@, close@),
            decreases_to!(*node => *a),
            decreases_to!(*node => *b),
        ensures
            node_ok(*node, false) ==> r is Ok
                && final(self).code@ == old(self).code@ + node_lua(*node, old(self).doing_statement).0
                && final(self).doing_statement == node_lua(*node, old(self).doing_statement).1
                && same_libraries(old(self), final(self)),
        decreases node, 0nat,
    {
        let ghost c0 = self.code@;
        let ghost f0 = self.doing_statement;
        let ghost exact = node_ok(*node, false);
        proof {
            lemma_pair_lua(*node, f0);
        }
        self.add_code_str(open);
        self.compile_node(a)?;
        self.add_code_str(mid);
        self.compile_node(b)?;
        self.add_code_str(close);
        proof {
            if exact {
                assert(self.code@ =~= c0 + (open@ + node_lua(*a, f0).0 + mid@ + node_lua(*b, node_lua(*a, f0).1).0 + close@));
            }
        }
        Ok(())
    }

    /// The Lua operator of a binary operation.
    fn op_text(op: &BinaryOperation) -> (r: &'static str)
        ensures
            r@ == op_lua(*op),
    {
        match op {
            BinaryOperation::Add => "+",
            BinaryOperation::Subtract => "-",
            BinaryOperation::Multiply => "*",
            BinaryOperation::Divide => "/",
            BinaryOperation::Power => "^",
            BinaryOperation::GreaterThan => ">",
            BinaryOperation::Equals => "==",
            BinaryOperation::NotEquals => "~=",
            BinaryOperation::Modulo => "%",
        }
    }

    /// `if <condition> then <body> [else <alternative>] end`; inside a statement value, a
    /// function that is called at once.
    fn compile_conditional(&mut self, node: &ArcNode) -> (r: Result<(), LuaFailure>)
        requires
            node_ok(*node, true),
            node is Conditional,
        ensures
            node_ok(*node, false) ==> r is Ok
                && final(self).code@ == old(self).code@ + node_lua(*node, old(self).doing_statement).0
                && final(self).doing_statement == node_lua(*node, old(self).doing_statement).1
                && same_libraries(old(self), final(self)),
        decreases node, 0nat,
    {
        let ghost c0 = self.code@;
        let ghost f0 = self.doing_statement;
        let ghost exact = node_ok(*node, false);
        if let ArcNode::Conditional(condition, body, alternative) = node {
            let stmt = self.doing_statement;
            if stmt {
                self.add_code_str("(function() if ");
            } else {
                self.add_code_str("if ");
            }
            self.compile_node(condition)?;
            self.add_code_str(" then ");
            self.compile_nodes(body)?;
            if alternative.len() > 0 {
                self.add_code_str(" else ");
                self.compile_nodes(alternative)?;
            }
            if stmt {
                self.add_code_str(" end end)()");
            } else {
                self.add_code_str(" end");
            }
        proof {
            if exact {
                assert(self.code@ =~= c0 + node_lua(*node, f0).0);
            }
        }
        }
        Ok(())
    }

    /// A loop, as a function that is called at once.
    fn compile_while(&mut self, node: &ArcNode) -> (r: Result<(), LuaFailure>)
        requires
            node_ok(*node, true),
            node is While,
        ensures
            node_ok(*node, false) ==> r is Ok
                && final(self).code@ == old(self).code@ + node_lua(*node, old(self).doing_statement).0
                && final(self).doing_statement == node_lua(*node, old(self).doing_statement).1
                && same_libraries(old(self), final(self)),
        decreases node, 0nat,
    {
        let ghost c0 = self.code@;
        let ghost f0 = self.doing_statement;
        let ghost exact = node_ok(*node, false);
        if let ArcNode::While(condition, body) = node {
            self.add_code_str("(function() while ");
            self.compile_node(condition)?;
            self.add_code_str(" do ");
            self.compile_nodes(body)?;
            self.add_code_str(" end end)()");
        proof {
            if exact {
                assert(self.code@ =~= c0 + node_lua(*node, f0).0);
            }
        }
        }
        Ok(())
    }

    /// A function: `function <name>(<parameters>) <body>end`, in parentheses when anonymous.
    fn compile_function_node(&mut self, node: &ArcNode) -> (r: Result<(), LuaFailure>)
        requires
            node_ok(*node, true),
            node is Function,
        ensures
            node_ok(*node, false) ==> r is Ok
                && final(self).code@ == old(self).code@ + node_lua(*node, old(self).doing_statement).0
                && final(self).doing_statement == node_lua(*node, old(self).doing_statement).1
                && same_libraries(old(self), final(self)),
        decreases node, 0nat,
    {
        let ghost c0 = self.code@;
        let ghost f0 = self.doing_statement;
        let ghost exact = node_ok(*node, false);
        if let ArcNode::Function(name, unique_identifier, count, body) = node {
            proof {
                reveal_strlit("");
                if name@.len() == 0 {
                    assert(name@ =~= ""@);
                }
            }
            let anonymous = str_eq(name.as_str(), "");
            if anonymous {
                self.add_code_str("(");
            }
            self.add_code_str("function");
            if !anonymous {
                self.add_code_str(" ");
                self.add_code_str(name.as_str());
            }
            self.add_code_str("(");
            self.write_params(*unique_identifier, *count);
            self.add_code_str(") ");
            self.compile_nodes(body)?;
            self.add_code_str("end");
            if anonymous {
                self.add_code_str(")");
            }
        proof {
            if exact {
                assert(self.code@ =~= c0 + node_lua(*node, f0).0);
            }
        }
        }
        Ok(())
    }

    /// A call. A constant callee `library::function` calls into a native library (its C
    /// string result, if any, is turned into a Lua string; `print` and `println` are called
    /// directly); any other callee is compiled and called.
    #[verifier::rlimit(60)]
    fn compile_call(&mut self, node: &ArcNode) -> (r: Result<(), LuaFailure>)
        requires
            node_ok(*node, true),
            node is Call,
        ensures
            node_ok(*node, false) ==> r is Ok
                && final(self).code@ == old(self).code@ + node_lua(*node, old(self).doing_statement).0
                && final(self).doing_statement == node_lua(*node, old(self).doing_statement).1
                && same_libraries(old(self), final(self)),
        decreases node, 0nat,
    {
        let ghost c0 = self.code@;
        let ghost f0 = self.doing_statement;
        let ghost exact = node_ok(*node, false);
        if let ArcNode::Call(callee, arguments) = node {
            match &**callee {
                ArcNode::Constant(e) => {
                    let text = value_text_of(e);
                    let (lib, fun) = split_call(text.as_str());
                    proof {
                        reveal_strlit("println");
                        reveal_strlit("print");
                    }
                    let printing = str_eq(fun.as_str(), "println") || str_eq(fun.as_str(), "print");
                    if printing {
                        self.add_code(lib);
                        self.add_code_str(".");
                        self.add_code(fun);
                        self.add_code_str("(");
                    } else {
                        self.add_code_str("(function() local res = ");
                        self.add_code(lib);
                        self.add_code_str(".");
                        self.add_code(fun);
                        self.add_code_str("(");
                    }
                    self.compile_args(arguments)?;
                    if printing {
                        self.add_code_str(")");
                    } else {
                        self.add_code_str(") if type(res) == \"cdata\" then return ffi.string(res) else return res end end)()");
                    }
                },
                other => {
                    self.compile_node(other)?;
                    self.add_code_str("(");
                    self.compile_args(arguments)?;
                    self.add_code_str(")");
                },
            }
        proof {
            if exact {
                assert(self.code@ =~= c0 + node_lua(*node, f0).0);
            }
        }
        }
        Ok(())
    }

    /// The first half of a slice (see `slice_head`).
    #[verifier::rlimit(60)]
    fn compile_slice_head(&mut self, node: &ArcNode) -> (r: Result<(), LuaFailure>)
        requires
            node_ok(*node, true),
            node is Slice,
        ensures
            node_ok(*node, false) ==> r is Ok
                && final(self).code@ == old(self).code@ + slice_head(*node->Slice_0, *node->Slice_1, *node->Slice_2, old(self).doing_statement).0
                && final(self).doing_statement == slice_head(*node->Slice_0, *node->Slice_1, *node->Slice_2, old(self).doing_statement).1
                && same_libraries(old(self), final(self)),
        decreases node, 0nat,
    {
        let ghost c0 = self.code@;
        let ghost f0 = self.doing_statement;
        let ghost exact = node_ok(*node, false);
        if let ArcNode::Slice(to_slice, from, to) = node {
            self.add_code_str("(function() if type(");
            self.compile_node(to_slice)?;
            self.add_code_str(") == \"string\" then return ");
            self.compile_node(to_slice)?;
            self.add_code_str("(");
            self.compile_node(from)?;
            self.add_code_str("+1,");
            self.compile_node(to)?;
            self.add_code_str("+1) else local temp_sliced = {} for i = ");
            proof {
                if exact {
                    assert(self.code@ =~= c0 + slice_head(**to_slice, **from, **to, f0).0);
                }
            }
        }
        Ok(())
    }

    /// The second half of a slice (see `slice_tail`).
    #[verifier::rlimit(60)]
    fn compile_slice_tail(&mut self, node: &ArcNode) -> (r: Result<(), LuaFailure>)
        requires
            node_ok(*node, true),
            node is Slice,
        ensures
            node_ok(*node, false) ==> r is Ok
                && final(self).code@ == old(self).code@ + slice_tail(*node->Slice_0, *node->Slice_1, *node->Slice_2, old(self).doing_statement).0
                && final(self).doing_statement == slice_tail(*node->Slice_0, *node->Slice_1, *node->Slice_2, old(self).doing_statement).1
                && same_libraries(old(self), final(self)),
        decreases node, 0nat,
    {
        let ghost c0 = self.code@;
        let ghost f0 = self.doing_statement;
        let ghost exact = node_ok(*node, false);
        if let ArcNode::Slice(to_slice, from, to) = node {
            self.compile_node(from)?;
            self.add_code_str("+1, ");
            self.compile_node(to)?;
            self.add_code_str("+1 or #");
            self.compile_node(to_slice)?;
            self.add_code_str(", 1 do temp_sliced[#temp_sliced+1] = ");
            self.compile_node(to_slice)?;
            self.add_code_str("[i] end return temp_sliced end end)()");
            proof {
                if exact {
                    assert(self.code@ =~= c0 + slice_tail(**to_slice, **from, **to, f0).0);
                }
            }
        }
        Ok(())
    }

    /// Loads a native library: declares its signatures and binds it to its name. Fails when
    /// the signatures are not known (`MissingSignature`), could not be read, or the name is
    /// already bound.
    fn load_library(&mut self, path: &String, namespace: &String) -> (r: Result<(), LuaFailure>)
        ensures
            library_loaded(old(self), final(self), path@, namespace@, r),
    {
        match find_signature(&self.signatures, path.as_str()) {
            None => Err(LuaFailure::MissingSignature(path.clone())),
            Some(Err(message)) => Err(LuaFailure::Runtime(message)),
            Some(Ok(signature)) => {
                let p = path.clone();
                let n = namespace.clone();
                assert(p@ == path@ && n@ == namespace@);
                self.add_library_path(p);
                proof {
                    assert(self.library_paths@.drop_last() =~= old(self).library_paths@);
                }
                self.add_library_namespace(n)?;
                proof {
                    assert(self.library_names@.drop_last() =~= old(self).library_names@);
                }
                let ghost c1 = self.code@;
                let ghost sig = signature@;
                self.add_code_str("ffi.cdef[[ ");
                self.add_code(signature);
                self.add_code_str(" ]]\n");
                self.add_code(namespace.clone());
                self.add_code_str(" = ffi.load(\"");
                self.add_code(path.clone());
                self.add_code_str(".");
                let extension = self.library_extension.clone();
                self.add_code(extension);
                self.add_code_str("\")");
                proof {
                    assert(self.code@ =~= c1 + library_load_lua(sig, namespace@, path@, old(self).library_extension@));
                }
                Ok(())
            },
        }
    }

    /// Appends the Lua form of a program: each node followed by a semicolon (but for class
    /// declarations), the last one printed unless it stores or assigns a value.
    pub fn compile_nodes_global(&mut self, nodes: &Vec<ArcNode>) -> (r: Result<(), LuaFailure>)
        requires
            all_ok(nodes@, true),
        ensures
            all_ok(nodes@, false) ==> r is Ok
                && final(self).code@ == old(self).code@ + global_lua(nodes@, old(self).doing_statement).0
                && final(self).doing_statement == global_lua(nodes@, old(self).doing_statement).1
                && same_libraries(old(self), final(self)),
    {
        let ghost c0 = self.code@;
        let ghost f0 = self.doing_statement;
        let ghost exact = all_ok(nodes@, false);
        let n = nodes.len();
        if n == 0 {
            return Ok(());
        }
        let mut index: usize = 0;
        while index + 1 < n
            invariant
                n == nodes@.len(),
                n > 0,
                index + 1 <= n,
                all_ok(nodes@, true),
                exact == all_ok(nodes@, false),
                exact ==> self.code@ == c0 + stmts_lua(nodes@.subrange(0, index as int), f0).0,
                exact ==> self.doing_statement == stmts_lua(nodes@.subrange(0, index as int), f0).1,
                exact ==> same_libraries(old(self), self),
            decreases n - index,
        {
            assert(node_ok(nodes@[index as int], true));
            self.compile_node(&nodes[index])?;
            let is_class = match &nodes[index] {
                ArcNode::Compound => true,
                _ => false,
            };
            if !is_class {
                self.add_code_str(";");
            }
            proof {
                if exact {
                    assert(node_ok(nodes@[index as int], false));
                    let s = nodes@.subrange(0, index + 1);
                    assert(s.subrange(0, index as int) =~= nodes@.subrange(0, index as int));
                    assert(s[index as int] == nodes@[index as int]);
                    assert(self.code@ =~= c0 + stmts_lua(s, f0).0);
                }
            }
            index = index + 1;
        }
        let last = &nodes[index];
        let wrapped = match last {
            ArcNode::Store(_, _) => false,
            ArcNode::Assign(_, _) => false,
            _ => true,
        };
        assert(node_ok(nodes@[index as int], true));
        if wrapped {
            self.add_code_str("print(");
        }
        self.compile_node(last)?;
        if wrapped {
            self.add_code_str(")");
        }
        proof {
            if exact {
                assert(node_ok(nodes@[index as int], false));
                assert(self.code@ =~= c0 + global_lua(nodes@, f0).0);
            }
        }
        Ok(())
    }
}
/// Generates Lua code from Arc.
pub struct Sanzio {}

impl Sanzio {
    /// The Lua program for an Arc program: the prelude, then the program's nodes. Loading a
    /// native library uses the signatures given for its path, with the given file extension.
    pub fn compile_to_lua(ast: &Ast, signatures: Vec<(String, Result<String, String>)>, library_extension: String) -> (r: Result<LuaBackend, LuaFailure>)
        requires
            all_ok(ast.nodes@, true),
        ensures
            all_ok(ast.nodes@, false) ==> (r matches Ok(b) && b.code@ == lua_prelude() + global_lua(ast.nodes@, false).0),
    {
        let mut backend = LuaBackend::new(signatures, library_extension);
        backend.compile_nodes_global(&ast.nodes)?;
        Ok(backend)
    }
}

/// Whether a node can be compiled with libraries loaded (see `node_ok`).
pub fn node_ready(node: &ArcNode) -> (r: bool)
    ensures
        r == node_ok(*node, true),
    decreases node, 1nat,
{
    match node {
        ArcNode::Constant(v) => value_ready(v),
        ArcNode::Load(_, _) => true,
        ArcNode::Store(_, v) => node_ready(v),
        ArcNode::Suffix(_, a, b) => node_ready(a) && node_ready(b),
        ArcNode::Conditional(c, body, alt) => node_ready(c) && nodes_ready(body) && nodes_ready(alt),
        ArcNode::Function(_, _, _, body) => nodes_ready(body),
        ArcNode::Call(callee, args) => {
            let callee_ok = match &**callee {
                ArcNode::Constant(e) => {
                    let text = value_text_of(e);
                    crate::text::contains_str(text.as_str(), "::")
                },
                other => node_ready(other),
            };
            proof { reveal_strlit("::"); }
            callee_ok && nodes_ready(args)
        },
        ArcNode::While(c, body) => node_ready(c) && nodes_ready(body),
        ArcNode::Index(a, b) => node_ready(a) && node_ready(b),
        ArcNode::Slice(a, b, c) => node_ready(a) && node_ready(b) && node_ready(c),
        ArcNode::Push(a, b) => node_ready(a) && node_ready(b),
        ArcNode::Copy(_) => true,
        ArcNode::LoadLib(_, _) => true,
        ArcNode::Return(v) => node_ready(v),
        ArcNode::Assign(a, b) => node_ready(a) && node_ready(b),
        ArcNode::Pop(a, b) => node_ready(a) && node_ready(b),
        ArcNode::Length(a) => node_ready(a),
        ArcNode::And(a, b) => node_ready(a) && node_ready(b),
        ArcNode::Or(a, b) => node_ready(a) && node_ready(b),
        ArcNode::Compound => true,
    }
}

/// Whether every node of a list can be compiled with libraries loaded.
pub fn nodes_ready(nodes: &Vec<ArcNode>) -> (r: bool)
    ensures
        r == all_ok(nodes@, true),
    decreases nodes, 1nat,
{
    let mut i: usize = 0;
    while i < nodes.len()
        invariant
            i <= nodes@.len(),
            forall|j: int| 0 <= j < i ==> node_ok(#[trigger] nodes@[j], true),
        decreases nodes.len() - i,
    {
        if !node_ready(&nodes[i]) {
            return false;
        }
        i = i + 1;
    }
    true
}

/// Whether a value can be compiled with libraries loaded.
pub fn value_ready(value: &ArcValue) -> (r: bool)
    ensures
        r == value_ok(*value, true),
    decreases value, 1nat,
{
    match value {
        ArcValue::Function(_, _, body) => nodes_ready(body),
        ArcValue::Compound(items) => values_ready(items),
        ArcValue::Array(items) => values_ready(items),
        _ => true,
    }
}

fn values_ready(items: &Vec<ArcValue>) -> (r: bool)
    ensures
        r == forall|i: int| 0 <= i < items@.len() ==> value_ok(#[trigger] items@[i], true),
    decreases items, 1nat,
{
    let mut i: usize = 0;
    while i < items.len()
        invariant
            i <= items@.len(),
            forall|j: int| 0 <= j < i ==> value_ok(#[trigger] items@[j], true),
        decreases items.len() - i,
    {
        if !value_ready(&items[i]) {
            return false;
        }
        i = i + 1;
    }
    true
}

} // verus!
