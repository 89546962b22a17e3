//! Compiles the syntax tree of a Loop program into Arc.
use vstd::prelude::*;
use crate::compiler::compile::{Function, emitted, value_code, literal_code, literal_type, identifier_compiled,
    operand_code, operand_type, compiled_operand,
    inert_literal, skipped_statement, skipped_expression, simple_block, simple_block_code, simple_block_type,
    compile_expression_identifier, compile_expression_integer,
    compile_expression_suffix, compile_expression_boolean, compile_expression_function,
    compile_expression_conditional, compile_expression_null, compile_expression_call,
    compile_expression_float, compile_expression_string, compile_expression_index,
    compile_expression_array, compile_expression_assign_index, compile_loop_expression,
    compile_loop_iterator_expression, compile_loop_array_iterator_expression,
    compile_expression_hashmap, compile_expression_slice, compile_statement_variable_declaration,
    compile_statement_constant_declaration, compile_statement_variable_assign,
    compile_return_statement, compile_import_statement, compile_break_statement,
    compile_class_statement, compile_extend_statement, compile_export_statement};
use crate::compiler::modifiers::Modifiers;
use crate::compiler::variable_table::{
    Variable, VariableScope, build_variable_scope, build_deeper_variable_scope, scopes_wf,
    spec_resolve, spec_define_target, lemma_define_target_bounds, law_enter_keeps_names,
};
use crate::exception::{CompilerError, CompilerException, CompilerExceptionCode, UnknownSymbol, unplaced};
use crate::parser::expression::Expression;
use crate::parser::program::Program;
use crate::parser::statement::{Block, Method, Statement};
use crate::types::{Compound, Types, TypesV};
use crate::text::{owned, str_eq, str_to_chars, chars_to_string, chars_range, find_from, append_str, occurs_at};

pub mod compile;
pub mod modifiers;
pub mod variable_table;

verus! {

broadcast use vstd::std_specs::vec::group_vec_axioms;

/// The result of the compiler: the imported libraries and the compiled functions.
pub struct Arc {
    pub imports: Vec<String>,
    pub functions: Vec<Function>,
}

/// The code of the functions named "main", in order.
pub open spec fn main_code(functions: Seq<Function>) -> Seq<char>
    decreases functions.len(),
{
    if functions.len() == 0 {
        Seq::empty()
    } else if functions.last().name@ == "main"@ {
        main_code(functions.drop_last()) + functions.last().code@
    } else {
        main_code(functions.drop_last())
    }
}

impl Arc {
    /// The Arc text of the program: the code of the function "main".
    pub fn get_arc(&self) -> (r: String)
        ensures
            r@ == main_code(self.functions@),
    {
        let mut code = String::new();
        let mut i: usize = 0;
        proof { reveal_strlit("main"); }
        while i < self.functions.len()
            invariant
                i <= self.functions.len(),
                code@ == main_code(self.functions@.take(i as int)),
            decreases self.functions.len() - i,
        {
            assert(self.functions@.take(i + 1).drop_last() =~= self.functions@.take(i as int));
            if str_eq(self.functions[i].name.as_str(), "main") {
                append_str(&mut code, self.functions[i].code.as_str());
            }
            i = i + 1;
        }
        assert(self.functions@.take(self.functions.len() as int) =~= self.functions@);
        code
    }
}

/// Symbol tables and counters that carry over from one compilation to the next (as in a REPL).
pub struct CompilerState {
    pub scopes: Vec<VariableScope>,
    pub variable_scope: Vec<(String, usize)>,
    pub variable_count: u32,
    pub function_count: i32,
}

/// The compiler itself, containing global metadata needed during compilation.
pub struct Compiler {
    pub scope_index: i32,
    /// All scopes; a scope names the scope around it by position.
    pub scopes: Vec<VariableScope>,
    /// For each module (location), its current scope.
    pub symbol_scope: Vec<(String, usize)>,
    pub variable_count: u32,
    pub last_extension_type: Option<Expression>,
    pub location: String,
    pub locations: Vec<String>,
    pub export_name: String,
    pub prev_location: String,
    pub breaks: Vec<u32>,
    pub imports: Vec<String>,
    pub functions: Vec<Function>,
    pub function_stack: Vec<String>,
    pub function_count: i32,
    pub current_function: String,
    /// Methods added to primitive types, by type name.
    pub extensions: Vec<(String, Vec<Method>)>,
    /// Whether compiling should add code (only when zero).
    pub dry: u32,
    pub base_location: String,
    pub compiled_from: String,
    /// Remaining compilation steps; every nested compilation function spends one.
    pub fuel: u64,
    /// The contents of source files that imports may read, by path (`None`: unreadable).
    pub sources: Vec<(String, Option<String>)>,
    /// A file an import needed that `sources` does not hold yet.
    pub pending_read: Option<String>,
    /// The error that ended compilation, when one was thrown.
    pub thrown: Option<CompilerError>,
}

/// The scope recorded for a location.
pub open spec fn spec_scope_of(table: Seq<(String, usize)>, loc: Seq<char>) -> Option<usize>
    decreases table.len(),
{
    if table.len() == 0 {
        None
    } else {
        match spec_scope_of(table.drop_last(), loc) {
            Some(s) => Some(s),
            None => if table.last().0@ == loc { Some(table.last().1) } else { None },
        }
    }
}

pub proof fn lemma_scope_of_bound(table: Seq<(String, usize)>, loc: Seq<char>, n: nat)
    requires
        forall|i: int| 0 <= i < table.len() ==> (#[trigger] table[i]).1 < n,
    ensures
        spec_scope_of(table, loc) matches Some(s) ==> s < n,
    decreases table.len(),
{
    if table.len() > 0 {
        assert(forall|i: int| 0 <= i < table.len() - 1 ==> table.drop_last()[i] == table[i]);
        lemma_scope_of_bound(table.drop_last(), loc, n);
    }
}

proof fn lemma_scope_of_prefix(table: Seq<(String, usize)>, loc: Seq<char>, n: int)
    requires
        0 <= n <= table.len(),
        spec_scope_of(table.take(n), loc) is Some,
    ensures
        spec_scope_of(table, loc) == spec_scope_of(table.take(n), loc),
    decreases table.len() - n,
{
    if n < table.len() {
        assert(table.take(n + 1).drop_last() =~= table.take(n));
        lemma_scope_of_prefix(table, loc, n + 1);
    } else {
        assert(table.take(n) =~= table);
    }
}

/// The scope recorded for a location.
pub fn scope_of(table: &Vec<(String, usize)>, loc: &str) -> (r: Option<usize>)
    ensures
        r == spec_scope_of(table@, loc@),
{
    let mut i: usize = 0;
    while i < table.len()
        invariant
            i <= table.len(),
            spec_scope_of(table@.take(i as int), loc@) is None,
        decreases table.len() - i,
    {
        assert(table@.take(i + 1).drop_last() =~= table@.take(i as int));
        if str_eq(table[i].0.as_str(), loc) {
            proof { lemma_scope_of_prefix(table@, loc@, i + 1); }
            return Some(table[i].1);
        }
        i = i + 1;
    }
    assert(table@.take(table.len() as int) =~= table@);
    None
}

/// Records `id` as the scope of `loc`, replacing an earlier record.
fn set_scope_of(table: &mut Vec<(String, usize)>, loc: &str, id: usize)
    ensures
        spec_scope_of(final(table)@, loc@) == Some(id),
        forall|l: Seq<char>| l != loc@ ==> spec_scope_of(final(table)@, l) == spec_scope_of(old(table)@, l),
        forall|i: int| 0 <= i < final(table)@.len() ==> (#[trigger] final(table)@[i]).1 == id
            || exists|j: int| 0 <= j < old(table)@.len() && old(table)@[j].1 == final(table)@[i].1,
{
    let mut i: usize = 0;
    while i < table.len()
        invariant
            i <= table.len(),
            *table == *old(table),
            forall|j: int| 0 <= j < i ==> (#[trigger] table@[j]).0@ != loc@,
        decreases table.len() - i,
    {
        if str_eq(table[i].0.as_str(), loc) {
            let key = table[i].0.clone();
            table.set(i, (key, id));
            proof {
                assert forall|l: Seq<char>| l != loc@ implies spec_scope_of(table@, l) == spec_scope_of(old(table)@, l) by {
                    lemma_scope_of_same_keys(old(table)@, table@, l, i as int);
                }
                lemma_scope_of_found(table@, loc@, i as int);
                assert forall|k: int| 0 <= k < table@.len() implies (#[trigger] table@[k]).1 == id
                    || exists|j: int| 0 <= j < old(table)@.len() && old(table)@[j].1 == table@[k].1 by {
                    if k != i {
                        assert(old(table)@[k].1 == table@[k].1);
                    }
                }
            }
            return;
        }
        i = i + 1;
    }
    table.push((owned(loc), id));
    proof {
        assert(table@.drop_last() =~= old(table)@);
        lemma_scope_of_absent(old(table)@, loc@);
        assert forall|k: int| 0 <= k < table@.len() implies (#[trigger] table@[k]).1 == id
            || exists|j: int| 0 <= j < old(table)@.len() && old(table)@[j].1 == table@[k].1 by {
            if k < old(table)@.len() {
                assert(old(table)@[k].1 == table@[k].1);
            }
        }
    }
}

proof fn lemma_scope_of_absent(table: Seq<(String, usize)>, loc: Seq<char>)
    requires
        forall|j: int| 0 <= j < table.len() ==> (#[trigger] table[j]).0@ != loc,
    ensures
        spec_scope_of(table, loc) is None,
    decreases table.len(),
{
    if table.len() > 0 {
        assert(forall|j: int| 0 <= j < table.len() - 1 ==> table.drop_last()[j] == table[j]);
        lemma_scope_of_absent(table.drop_last(), loc);
    }
}

proof fn lemma_scope_of_found(table: Seq<(String, usize)>, loc: Seq<char>, i: int)
    requires
        0 <= i < table.len(),
        table[i].0@ == loc,
        forall|j: int| 0 <= j < i ==> (#[trigger] table[j]).0@ != loc,
    ensures
        spec_scope_of(table, loc) == Some(table[i].1),
    decreases table.len(),
{
    if i < table.len() - 1 {
        assert(forall|j: int| 0 <= j < table.len() - 1 ==> table.drop_last()[j] == table[j]);
        lemma_scope_of_found(table.drop_last(), loc, i);
    } else {
        assert(forall|j: int| 0 <= j < table.len() - 1 ==> table.drop_last()[j] == table[j]);
        lemma_scope_of_absent(table.drop_last(), loc);
    }
}

proof fn lemma_scope_of_same_keys(a: Seq<(String, usize)>, b: Seq<(String, usize)>, l: Seq<char>, i: int)
    requires
        a.len() == b.len(),
        0 <= i < a.len(),
        a[i].0 == b[i].0,
        a[i].0@ != l,
        forall|j: int| 0 <= j < a.len() && j != i ==> a[j] == b[j],
    ensures
        spec_scope_of(b, l) == spec_scope_of(a, l),
    decreases a.len(),
{
    if a.len() > 0 {
        if i < a.len() - 1 {
            assert(forall|j: int| 0 <= j < a.len() - 1 && j != i ==> a.drop_last()[j] == b.drop_last()[j]);
            lemma_scope_of_same_keys(a.drop_last(), b.drop_last(), l, i);
        } else {
            assert(a.drop_last() =~= b.drop_last());
        }
    }
}

/// A copy of a list of scopes.
/// `b` is a copy of the variable `a`.
pub open spec fn copied_variable(a: Variable, b: Variable) -> bool {
    &&& b.index == a.index
    &&& b.name == a.name
    &&& b._type@ == a._type@
    &&& b.modifiers == a.modifiers
    &&& b.parameter_id == a.parameter_id
    &&& b.function_identifier == a.function_identifier
}

/// `b` is a copy of the scope `a`: the same scope around it and copies of its variables.
pub open spec fn copied_scope(a: VariableScope, b: VariableScope) -> bool {
    &&& b.outer == a.outer
    &&& b.variables@.len() == a.variables@.len()
    &&& forall|k: int| 0 <= k < a.variables@.len() ==> copied_variable(a.variables@[k], #[trigger] b.variables@[k])
}

pub fn duplicate_scopes(v: &Vec<VariableScope>) -> (r: Vec<VariableScope>)
    ensures
        r@.len() == v@.len(),
        forall|i: int| 0 <= i < v@.len() ==> (#[trigger] r@[i]).outer == v@[i].outer,
        forall|i: int| 0 <= i < v@.len() ==> copied_scope(v@[i], #[trigger] r@[i]),
{
    let mut out: Vec<VariableScope> = Vec::new();
    let mut i: usize = 0;
    while i < v.len()
        invariant
            i <= v.len(),
            out@.len() == i,
            forall|j: int| 0 <= j < i ==> (#[trigger] out@[j]).outer == v@[j].outer,
            forall|j: int| 0 <= j < i ==> copied_scope(v@[j], #[trigger] out@[j]),
        decreases v.len() - i,
    {
        let mut vars: Vec<Variable> = Vec::new();
        let mut k: usize = 0;
        while k < v[i].variables.len()
            invariant
                i < v.len(),
                k <= v@[i as int].variables@.len(),
                vars@.len() == k,
                forall|m: int| 0 <= m < k ==> copied_variable(v@[i as int].variables@[m], #[trigger] vars@[m]),
            decreases v@[i as int].variables@.len() - k,
        {
            vars.push(v[i].variables[k].duplicate());
            k = k + 1;
        }
        out.push(VariableScope { variables: vars, outer: v[i].outer });
        i = i + 1;
    }
    out
}

fn duplicate_table(v: &Vec<(String, usize)>) -> (r: Vec<(String, usize)>)
    ensures
        r@ == v@,
{
    let mut out: Vec<(String, usize)> = Vec::new();
    let mut i: usize = 0;
    while i < v.len()
        invariant
            i <= v.len(),
            out@ == v@.take(i as int),
        decreases v.len() - i,
    {
        out.push((v[i].0.clone(), v[i].1));
        assert(out@ =~= v@.take(i + 1));
        i = i + 1;
    }
    assert(v@.take(v.len() as int) =~= v@);
    out
}

/// `with` after each character of `s`.
pub open spec fn after_each(s: Seq<char>, with: Seq<char>) -> Seq<char>
    decreases s.len(),
{
    if s.len() == 0 {
        Seq::empty()
    } else {
        seq![s[0]] + with + after_each(s.skip(1), with)
    }
}

/// The string `s` with every occurrence of `pat` replaced by `with`, scanning left to right;
/// an empty `pat` occurs before each character and at the end.
pub open spec fn replace_all(s: Seq<char>, pat: Seq<char>, with: Seq<char>) -> Seq<char>
    decreases s.len(),
{
    if pat.len() == 0 {
        with + after_each(s, with)
    } else if s.len() < pat.len() {
        s
    } else if s.take(pat.len() as int) == pat {
        with + replace_all(s.skip(pat.len() as int), pat, with)
    } else {
        seq![s[0]] + replace_all(s.skip(1), pat, with)
    }
}

/// Appends the characters of `w` to `out`.
fn push_all(out: &mut Vec<char>, w: &Vec<char>)
    ensures
        final(out)@ == old(out)@ + w@,
{
    let mut k: usize = 0;
    while k < w.len()
        invariant
            k <= w.len(),
            out@ == old(out)@ + w@.take(k as int),
        decreases w.len() - k,
    {
        out.push(w[k]);
        assert(w@.take(k + 1) =~= w@.take(k as int).push(w@[k as int]));
        k = k + 1;
    }
    assert(w@.take(w.len() as int) =~= w@);
}

/// Replaces every occurrence of `pat` in `s` by `with`.
pub fn replace_str(s: &str, pat: &str, with: &str) -> (r: String)
    ensures
        r@ == replace_all(s@, pat@, with@),
{
    let h = str_to_chars(s);
    let p = str_to_chars(pat);
    let w = str_to_chars(with);
    let mut out: Vec<char> = Vec::new();
    if p.len() == 0 {
        push_all(&mut out, &w);
        let mut i: usize = 0;
        assert(h@.skip(0) =~= h@);
        while i < h.len()
            invariant
                i <= h.len(),
                h@ == s@,
                w@ == with@,
                out@ + after_each(h@.skip(i as int), w@) == w@ + after_each(h@, w@),
            decreases h.len() - i,
        {
            let ghost before = out@;
            let ghost rest = h@.skip(i as int);
            assert(rest.skip(1) =~= h@.skip(i + 1));
            out.push(h[i]);
            push_all(&mut out, &w);
            assert(out@ + after_each(h@.skip(i + 1), w@) =~= before + (seq![rest[0]] + w@ + after_each(rest.skip(1), w@)));
            i = i + 1;
        }
        assert(h@.skip(h.len() as int) =~= Seq::<char>::empty());
        assert(out@ =~= out@ + after_each(h@.skip(h.len() as int), w@));
        return chars_to_string(out.as_slice());
    }
    let mut i: usize = 0;
    assert(h@.skip(0) =~= h@);
    while i < h.len() && h.len() - i >= p.len()
        invariant
            i <= h.len(),
            h@ == s@,
            p@ == pat@,
            w@ == with@,
            p@.len() > 0,
            out@ + replace_all(h@.skip(i as int), p@, w@) == replace_all(h@, p@, w@),
        decreases h.len() - i,
    {
        let ghost rest = h@.skip(i as int);
        let mut m: usize = 0;
        let mut same = true;
        while m < p.len()
            invariant
                m <= p.len(),
                i + p.len() <= h.len(),
                same <==> forall|t: int| 0 <= t < m ==> h@[i + t] == p@[t],
            decreases p.len() - m,
        {
            if h[i + m] != p[m] {
                same = false;
            }
            m = m + 1;
        }
        if same {
            assert(rest.take(p@.len() as int) =~= p@);
            assert(rest.skip(p@.len() as int) =~= h@.skip(i + p.len()));
            let mut k: usize = 0;
            let ghost before = out@;
            while k < w.len()
                invariant
                    k <= w.len(),
                    out@ == before + w@.take(k as int),
                decreases w.len() - k,
            {
                out.push(w[k]);
                assert(w@.take(k + 1) =~= w@.take(k as int).push(w@[k as int]));
                k = k + 1;
            }
            assert(w@.take(w.len() as int) =~= w@);
            assert(before + w@ + replace_all(h@.skip(i + p.len()), p@, w@) =~= before + (w@ + replace_all(rest.skip(p@.len() as int), p@, w@)));
            i = i + p.len();
        } else {
            assert(rest.take(p@.len() as int) != p@) by {
                let t = choose|t: int| 0 <= t < p.len() && h@[i + t] != p@[t];
                assert(rest.take(p@.len() as int)[t] != p@[t]);
            }
            assert(rest.skip(1) =~= h@.skip(i + 1));
            let ghost before = out@;
            out.push(h[i]);
            assert(before.push(h@[i as int]) + replace_all(h@.skip(i + 1), p@, w@) =~= before + (seq![rest[0]] + replace_all(rest.skip(1), p@, w@)));
            i = i + 1;
        }
    }
    assert(h@.skip(i as int).len() < p@.len());
    assert(replace_all(h@.skip(i as int), p@, w@) == h@.skip(i as int));
    assert(out@ + h@.skip(i as int) == replace_all(h@, p@, w@));
    let mut j: usize = i;
    while j < h.len()
        invariant
            i <= j <= h.len(),
            out@ + h@.skip(j as int) == replace_all(s@, pat@, with@),
            h@ == s@,
            pat@.len() > 0,
        decreases h.len() - j,
    {
        let ghost before = out@;
        out.push(h[j]);
        assert(h@.skip(j as int) =~= seq![h@[j as int]] + h@.skip(j + 1));
        assert(before + h@.skip(j as int) =~= out@ + h@.skip(j + 1));
        j = j + 1;
    }
    assert(h@.skip(h.len() as int) =~= Seq::<char>::empty());
    assert(out@ =~= out@ + h@.skip(h.len() as int));
    chars_to_string(out.as_slice())
}

/// The items of `v` in reverse order.
pub fn reversed<T>(v: Vec<T>) -> (r: Vec<T>)
    ensures
        r@.len() == v@.len(),
        forall|i: int| 0 <= i < v@.len() ==> #[trigger] r@[i] == v@[v@.len() - 1 - i],
{
    let ghost orig = v@;
    let ghost n = v@.len();
    let mut v = v;
    let mut out: Vec<T> = Vec::new();
    while v.len() > 0
        invariant
            orig.len() == n,
            out@.len() + v@.len() == n,
            v@ == orig.subrange(0, v@.len() as int),
            forall|j: int| 0 <= j < out@.len() ==> #[trigger] out@[j] == orig[n - 1 - j],
        decreases v.len(),
    {
        let ghost before = v@;
        let x = v.pop().unwrap();
        assert(x == orig[v@.len() as int]);
        assert(v@ =~= orig.subrange(0, v@.len() as int));
        out.push(x);
    }
    out
}

/// Whether a saved state can be continued from: its scopes are well formed, every location's
/// scope exists, and the root location "" has one.
pub open spec fn state_valid(state: &CompilerState) -> bool {
    &&& scopes_wf(state.scopes@)
    &&& forall|i: int| 0 <= i < state.variable_scope@.len() ==> (#[trigger] state.variable_scope@[i]).1 < state.scopes@.len()
    &&& spec_scope_of(state.variable_scope@, ""@) is Some
}

/// Whether a saved state can be continued from (see `state_valid`).
pub fn check_state(state: &CompilerState) -> (r: bool)
    ensures
        r == state_valid(state),
{
    let mut i: usize = 0;
    while i < state.scopes.len()
        invariant
            i <= state.scopes@.len(),
            forall|k: int| 0 <= k < i ==> ((#[trigger] state.scopes@[k]).outer matches Some(o) ==> o < k),
        decreases state.scopes.len() - i,
    {
        if let Some(o) = state.scopes[i].outer {
            if o >= i {
                return false;
            }
        }
        i = i + 1;
    }
    let mut j: usize = 0;
    while j < state.variable_scope.len()
        invariant
            j <= state.variable_scope@.len(),
            forall|k: int| 0 <= k < j ==> (#[trigger] state.variable_scope@[k]).1 < state.scopes@.len(),
        decreases state.variable_scope.len() - j,
    {
        if state.variable_scope[j].1 >= state.scopes.len() {
            return false;
        }
        j = j + 1;
    }
    scope_of(&state.variable_scope, "").is_some()
}

/// `b` is `a` after entering a deeper scope: a new scope around nothing but the current one
/// became current.
pub open spec fn entered_scope(a: &Compiler, b: &Compiler) -> bool {
    &&& b.wf()
    &&& b.scopes@.len() == a.scopes@.len() + 1
    &&& b.scopes@.last().outer == Some(a.current_scope() as usize)
    &&& b.current_scope() == a.scopes@.len()
    &&& b.location == a.location
}

/// `c` is `b` after leaving the current scope: the scope around it became current.
pub open spec fn exited_scope(b: &Compiler, c: &Compiler) -> bool {
    &&& c.wf()
    &&& c.scopes == b.scopes
    &&& (b.scopes@[b.current_scope()].outer matches Some(o) ==> c.current_scope() == o as int)
    &&& c.location == b.location
}

/// Entering a scope and leaving it again makes the scope that was current before current again.
pub proof fn law_enter_exit_scope(a: &Compiler, b: &Compiler, c: &Compiler)
    requires
        a.wf(),
        entered_scope(a, b),
        exited_scope(b, c),
    ensures
        c.current_scope() == a.current_scope(),
{
    lemma_scope_of_bound(a.symbol_scope@, a.location@, a.scopes@.len());
    assert(b.scopes@[b.current_scope()] == b.scopes@.last());
}

/// `st` is the state saved from `c` (what `get_compiler_state` gives).
pub open spec fn saved_state(c: &Compiler, st: &CompilerState) -> bool {
    &&& st.function_count == c.function_count
    &&& st.variable_count == c.variable_count
    &&& st.variable_scope@ == c.symbol_scope@
    &&& st.scopes@.len() == c.scopes@.len()
    &&& forall|i: int| 0 <= i < c.scopes@.len() ==> (#[trigger] st.scopes@[i]).outer == c.scopes@[i].outer
    &&& forall|i: int| 0 <= i < c.scopes@.len() ==> copied_scope(c.scopes@[i], #[trigger] st.scopes@[i])
}

/// The state saved from a compiler can always be continued from.
pub proof fn law_saved_state_is_valid(c: &Compiler, st: &CompilerState)
    requires
        c.wf(),
        saved_state(c, st),
    ensures
        state_valid(st),
{
    assert forall|i: int| 0 <= i < st.scopes@.len() implies ((#[trigger] st.scopes@[i]).outer matches Some(o) ==> o < i) by {
        assert(st.scopes@[i].outer == c.scopes@[i].outer);
    }
}

/// Replacing a text that does not occur changes nothing.
pub proof fn law_replace_absent(s: Seq<char>, pat: Seq<char>, with: Seq<char>)
    requires
        pat.len() > 0,
        !crate::text::occurs_somewhere(s, pat),
    ensures
        replace_all(s, pat, with) == s,
    decreases s.len(),
{
    if s.len() >= pat.len() {
        assert(!occurs_at(s, pat, 0));
        assert(s.take(pat.len() as int) =~= s.subrange(0, pat.len() as int));
        assert forall|j: int| !occurs_at(s.skip(1), pat, j) by {
            if occurs_at(s.skip(1), pat, j) {
                assert(s.skip(1).subrange(j, j + pat.len()) =~= s.subrange(j + 1, j + 1 + pat.len()));
                assert(occurs_at(s, pat, j + 1));
            }
        }
        law_replace_absent(s.skip(1), pat, with);
        assert(seq![s[0]] + s.skip(1) =~= s);
    }
}

/// The unknown error, at line 0, column 0.
pub fn unknown_error() -> (r: CompilerException)
    ensures
        r == unplaced(CompilerExceptionCode::Unknown),
{
    CompilerException::new(0, 0, CompilerExceptionCode::Unknown)
}

/// Whether an expression, as a statement that is not the last of its block, has no effect
/// (a literal or a name) and is left out.
fn is_inert(e: &Expression) -> (r: bool)
    ensures
        r == skipped_expression(*e),
{
    match e {
        Expression::Integer(_) => true,
        Expression::String(_) => true,
        Expression::Array(_) => true,
        Expression::Boolean(_) => true,
        Expression::Float(_) => true,
        Expression::Identifier(_) => true,
        _ => false,
    }
}

fn is_assign_index(e: &Expression) -> (r: bool)
    ensures
        r == (*e is AssignIndex),
{
    match e {
        Expression::AssignIndex(_) => true,
        _ => false,
    }
}

/// The position of the first "::" in `s` at or after `from`.
pub open spec fn sep_from(s: Seq<char>, from: int) -> Option<int>
    decreases s.len() - from,
{
    if from < 0 || from >= s.len() {
        None
    } else if crate::text::occurs_at(s, "::"@, from) {
        Some(from)
    } else {
        sep_from(s, from + 1)
    }
}

/// The first "::" at or after `from` is at `k` when one is there and none comes before it.
proof fn lemma_sep_from(s: Seq<char>, from: int, k: int)
    requires
        0 <= from <= k,
        crate::text::occurs_at(s, "::"@, k),
        forall|j: int| from <= j < k ==> !crate::text::occurs_at(s, "::"@, j),
    ensures
        sep_from(s, from) == Some(k),
    decreases k - from,
{
    reveal_strlit("::");
    assert(k + 2 <= s.len());
    if from < k {
        lemma_sep_from(s, from + 1, k);
    }
}

/// No "::" at or after `from` means none is found.
proof fn lemma_sep_from_none(s: Seq<char>, from: int)
    requires
        0 <= from,
        forall|j: int| from <= j ==> !crate::text::occurs_at(s, "::"@, j),
    ensures
        sep_from(s, from) is None,
    decreases s.len() - from,
{
    if from < s.len() {
        lemma_sep_from_none(s, from + 1);
    }
}

/// Where a name is found: a `module::name` (the text before the first "::" and the text
/// after it up to the next "::") in that module's scope first; otherwise, and for any other
/// name, from the current scope outwards.
pub open spec fn lookup(c: &Compiler, name: Seq<char>) -> Option<(int, int)> {
    let plain = spec_resolve(c.scopes@, c.current_scope(), name);
    match sep_from(name, 0) {
        Some(k) => {
            let module = name.subrange(0, k);
            let e = match sep_from(name, k + 2) { Some(e) => e, None => name.len() as int };
            let inner = name.subrange(k + 2, e);
            match spec_scope_of(c.symbol_scope@, module) {
                Some(m) => match spec_resolve(c.scopes@, m as int, inner) {
                    Some(p) => Some(p),
                    None => plain,
                },
                None => plain,
            }
        },
        None => plain,
    }
}

/// Whether an expression is a plain name (no "::") that nothing in scope is called.
pub open spec fn unknown_name(c: &Compiler, e: Expression) -> bool {
    &&& e is Identifier
    &&& !crate::text::occurs_somewhere(e->Identifier_0.value@, "::"@)
    &&& spec_resolve(c.scopes@, c.current_scope(), e->Identifier_0.value@) is None
}

/// The error a use of an unknown name gives: `UnknownSymbol` with the name and the depth of
/// the current scope.
pub open spec fn unknown_name_error(c: &Compiler, e: Expression) -> CompilerException {
    unplaced(CompilerExceptionCode::UnknownSymbol(UnknownSymbol {
        name: e->Identifier_0.value,
        scope_depth: c.scope_index as u16,
    }))
}

/// Whether the statements before position `k` are operand statements and statement `k` uses
/// an unknown name: compiling stops there.
pub open spec fn fails_on_unknown_name(c: &Compiler, stmts: Seq<Statement>, k: int) -> bool {
    &&& 0 <= k < stmts.len()
    &&& operand_statements(c, stmts.take(k))
    &&& stmts[k] is Expression
    &&& unknown_name(c, *stmts[k]->Expression_0.expression)
}

/// Whether every statement is an expression statement holding an operand that compiles on
/// its own (a literal, or a name in scope).
pub open spec fn operand_statements(c: &Compiler, stmts: Seq<Statement>) -> bool {
    forall|i: int| 0 <= i < stmts.len() ==> (#[trigger] stmts[i]) is Expression
        && operand_code(c, *stmts[i]->Expression_0.expression) is Some
}

/// Whether every statement is an expression statement holding a literal.
pub open spec fn literal_statements(stmts: Seq<Statement>) -> bool {
    forall|i: int| 0 <= i < stmts.len() ==> (#[trigger] stmts[i]) is Expression
        && literal_code(*stmts[i]->Expression_0.expression) is Some
}

/// The code of such statements, one after the other.
pub open spec fn operand_statements_code(c: &Compiler, stmts: Seq<Statement>) -> Seq<char>
    decreases stmts.len(),
{
    if stmts.len() == 0 {
        Seq::empty()
    } else {
        operand_statements_code(c, stmts.drop_last()) + operand_code(c, *stmts.last()->Expression_0.expression)->0
    }
}

/// Whether a scope itself holds a variable with this index and name.
pub open spec fn holds_variable(scope: VariableScope, index: u32, name: Seq<char>) -> bool {
    exists|k: int| 0 <= k < scope.variables@.len() && (#[trigger] scope.variables@[k]).index == index
        && scope.variables@[k].name@ == name
}

pub open spec fn compile_budget() -> u64 {
    4294967295u64
}

impl Compiler {
    /// The compiler's invariant: the current function is the first one, the scopes are
    /// well formed and known to every location in use, and dry compilation can always nest
    /// once more while steps remain.
    pub open spec fn wf(&self) -> bool {
        &&& self.functions@.len() > 0
        &&& self.functions@[0].name@ == self.current_function@
        &&& scopes_wf(self.scopes@)
        &&& forall|i: int| 0 <= i < self.symbol_scope@.len() ==> (#[trigger] self.symbol_scope@[i]).1 < self.scopes@.len()
        &&& spec_scope_of(self.symbol_scope@, self.location@) is Some
        &&& spec_scope_of(self.symbol_scope@, ""@) is Some
        &&& forall|i: int| 0 <= i < self.locations@.len() ==> spec_scope_of(self.symbol_scope@, (#[trigger] self.locations@[i])@) is Some
        &&& self.dry as int + self.fuel as int <= u32::MAX as int
    }

    /// The Arc code generated so far for the current function.
    pub open spec fn code(&self) -> Seq<char> {
        self.functions@[0].code@
    }

    /// The current scope.
    pub open spec fn current_scope(&self) -> int {
        spec_scope_of(self.symbol_scope@, self.location@)->0 as int
    }

    /// What every compilation function keeps: the invariant, the dry level, no more steps
    /// than before, counters of variables and functions that never go back (identifiers are
    /// not reused), and (the dry-compilation law) no new code while compiling dry.
    pub open spec fn kept(old: &Compiler, new: &Compiler) -> bool {
        &&& new.wf()
        &&& new.dry == old.dry
        &&& new.fuel <= old.fuel
        &&& new.variable_count >= old.variable_count
        &&& new.function_count >= old.function_count
        &&& new.current_function == old.current_function
        &&& (old.dry > 0 ==> new.code() == old.code())
    }

    /// Everything but the code of the current function (and the remaining steps) is unchanged.
    pub open spec fn same_but_code(a: &Compiler, b: &Compiler) -> bool {
        &&& b.scope_index == a.scope_index
        &&& b.scopes == a.scopes
        &&& b.symbol_scope == a.symbol_scope
        &&& b.variable_count == a.variable_count
        &&& b.location == a.location
        &&& b.locations == a.locations
        &&& b.imports == a.imports
        &&& b.functions@.len() == a.functions@.len()
        &&& b.functions@[0].name == a.functions@[0].name
        &&& forall|j: int| 1 <= j < a.functions@.len() ==> b.functions@[j] == a.functions@[j]
        &&& b.function_count == a.function_count
        &&& b.current_function == a.current_function
        &&& b.extensions == a.extensions
        &&& b.breaks == a.breaks
        &&& b.export_name == a.export_name
        &&& b.prev_location == a.prev_location
        &&& b.function_stack == a.function_stack
        &&& b.last_extension_type == a.last_extension_type
        &&& b.dry == a.dry
        &&& b.base_location == a.base_location
        &&& b.compiled_from == a.compiled_from
        &&& b.sources == a.sources
        &&& b.pending_read == a.pending_read
        &&& b.thrown == a.thrown
    }

    /// Main compilation function: compiles every statement of the program in order and returns
    /// the result, or the first error.
    pub fn compile(&mut self, program: Program) -> (r: Result<Arc, CompilerException>)
        requires
            old(self).wf(),
        ensures
            Compiler::kept(old(self), final(self)),
            r matches Ok(a) ==> a.functions@.len() == final(self).functions@.len()
                && a.functions@[0].code@ == final(self).code()
                && forall|i: int| 0 <= i < a.functions@.len() ==> (#[trigger] a.functions@[i]).name == final(self).functions@[i].name,
            operand_statements(old(self), program.statements@) && old(self).fuel > 2 * program.statements@.len() + 1
                ==> r is Ok && emitted(old(self), final(self), operand_statements_code(old(self), program.statements@)),
            forall|k: int| #[trigger] fails_on_unknown_name(old(self), program.statements@, k) && old(self).fuel > 2 * k + 2
                ==> r == Err::<Arc, CompilerException>(unknown_name_error(old(self), *program.statements@[k]->Expression_0.expression))
                    && (old(self).dry == 0 ==> final(self).code() == old(self).code()
                        + operand_statements_code(old(self), program.statements@.take(k))),
        decreases old(self).fuel,
    {
        let ghost orig = program.statements@;
        let ghost n = orig.len();
        let ghost ok = operand_statements(old(self), orig) && old(self).fuel > 2 * orig.len() + 1;
        if !self.spend() {
            return Err(unknown_error());
        }
        proof {
            if ok {
                assert(orig.take(0) =~= Seq::<Statement>::empty());
                assert(self.code() =~= old(self).code() + operand_statements_code(old(self), orig.take(0)));
            }
        }
        let mut statements = program.statements;
        statements = reversed(statements);
        while statements.len() > 0
            invariant
                Compiler::kept(old(self), self),
                old(self).wf(),
                self.fuel < old(self).fuel,
                statements@.len() <= n,
                n == orig.len(),
                orig == program.statements@,
                forall|i: int| 0 <= i < statements@.len() ==> #[trigger] statements@[i] == orig[n - 1 - i],
                ok == (operand_statements(old(self), orig) && old(self).fuel > 2 * orig.len() + 1),
                ok ==> emitted(old(self), self, operand_statements_code(old(self), orig.take(n - statements@.len())))
                    && self.fuel == old(self).fuel - 1 - 2 * (n - statements@.len()),
                forall|k: int| #[trigger] fails_on_unknown_name(old(self), orig, k) && old(self).fuel > 2 * k + 2
                    ==> n - statements@.len() <= k
                    && emitted(old(self), self, operand_statements_code(old(self), orig.take(n - statements@.len())))
                    && self.fuel == old(self).fuel - 1 - 2 * (n - statements@.len()),
            decreases statements.len(),
        {
            let ghost k = n - statements@.len();
            let ghost before = *self;
            let statement = statements.pop().unwrap();
            proof {
                assert(statement == orig[k]);
                if ok {
                    assert(operand_code(&before, *orig[k]->Expression_0.expression)
                        == operand_code(old(self), *orig[k]->Expression_0.expression));
                }
                assert forall|j: int| #[trigger] fails_on_unknown_name(old(self), orig, j) && old(self).fuel > 2 * j + 2
                    implies (j == k ==> unknown_name(&before, *orig[k]->Expression_0.expression) && before.fuel > 1)
                        && (j > k ==> orig[k] is Expression && operand_code(&before, *orig[k]->Expression_0.expression) is Some
                            && operand_code(&before, *orig[k]->Expression_0.expression)
                                == operand_code(old(self), *orig[k]->Expression_0.expression)
                            && before.fuel > 1) by {
                    if j > k {
                        assert(orig.take(j)[k] == orig[k]);
                    }
                }
            }
            let err = self.compile_statement(statement);
            if let Err(exception) = err {
                return Err(exception);
            }
            proof {
                assert forall|j: int| #[trigger] fails_on_unknown_name(old(self), orig, j) && old(self).fuel > 2 * j + 2
                    implies j >= k + 1 && (old(self).dry == 0 ==> self.code() == old(self).code()
                        + operand_statements_code(old(self), orig.take(k + 1))) by {
                    assert(orig.take(k + 1).drop_last() =~= orig.take(k));
                    assert(orig.take(k + 1).last() == orig[k]);
                    if old(self).dry == 0 {
                        assert(self.code() =~= old(self).code() + operand_statements_code(old(self), orig.take(k + 1)));
                    }
                }
                if ok {
                    assert(orig.take(k + 1).drop_last() =~= orig.take(k));
                    assert(orig.take(k + 1).last() == orig[k]);
                    if old(self).dry == 0 {
                        assert(self.code() =~= old(self).code() + operand_statements_code(old(self), orig.take(k + 1)));
                    }
                }
            }
        }
        proof {
            if ok {
                assert(orig.take(n as int) =~= orig);
            }
        }
        Ok(self.get_arc())
    }

    /// Spends one compilation step; false when none is left.
    pub fn spend(&mut self) -> (ok: bool)
        requires
            old(self).wf(),
        ensures
            final(self).wf(),
            ok == (old(self).fuel > 0),
            ok ==> final(self).fuel == old(self).fuel - 1,
            !ok ==> final(self).fuel == old(self).fuel,
            final(self).code() == old(self).code(),
            Compiler::same_but_code(old(self), final(self)),
            *final(self) == (Compiler { fuel: final(self).fuel, ..*old(self) }),
            final(self).dry == old(self).dry,
            final(self).current_function == old(self).current_function,
            final(self).scopes == old(self).scopes,
            final(self).symbol_scope == old(self).symbol_scope,
            final(self).location == old(self).location,
            final(self).scope_index == old(self).scope_index,
            final(self).variable_count == old(self).variable_count,
            final(self).function_count == old(self).function_count,
    {
        if self.fuel == 0 {
            false
        } else {
            self.fuel = self.fuel - 1;
            true
        }
    }

    /// Enters a compilation location (a module): it gets a fresh scope and is pushed on the
    /// stack of locations.
    pub fn enter_location(&mut self, location: String)
        requires
            old(self).wf(),
        ensures
            final(self).wf(),
            final(self).location == location,
            final(self).locations@ == old(self).locations@.push(location),
            final(self).code() == old(self).code(),
            final(self).dry == old(self).dry,
            final(self).fuel == old(self).fuel,
            final(self).current_function == old(self).current_function,
            final(self).variable_count == old(self).variable_count,
            final(self).function_count == old(self).function_count,
            spec_scope_of(final(self).symbol_scope@, location@) == Some((final(self).scopes@.len() - 1) as usize),
            final(self).scopes@[final(self).scopes@.len() - 1].variables@.len() == 0,
            final(self).scopes@[final(self).scopes@.len() - 1].outer is None,
    {
        self.enter_symbol_scope();
        self.locations.push(location.clone());
        let id = self.scopes.len();
        self.scopes.push(build_variable_scope());
        let ghost before = self.symbol_scope@;
        set_scope_of(&mut self.symbol_scope, location.as_str(), id);
        self.location = location;
        proof {
            assert forall|i: int| 0 <= i < self.symbol_scope@.len() implies (#[trigger] self.symbol_scope@[i]).1 < self.scopes@.len() by {
                if self.symbol_scope@[i].1 != id {
                    let j = choose|j: int| 0 <= j < before.len() && before[j].1 == self.symbol_scope@[i].1;
                }
            }
            assert forall|i: int| 0 <= i < self.locations@.len() implies spec_scope_of(self.symbol_scope@, (#[trigger] self.locations@[i])@) is Some by {
                if i < old(self).locations@.len() {
                    assert(self.locations@[i] == old(self).locations@[i]);
                }
            }
            assert(scopes_wf(self.scopes@)) by {
                assert forall|k: int| 0 <= k < self.scopes@.len() implies ((#[trigger] self.scopes@[k]).outer matches Some(o) ==> o < k) by {
                    if k < self.scopes@.len() - 1 {
                        assert(self.scopes@[k] == self.scopes@.drop_last()[k]);
                    }
                }
            }
        }
    }

    /// Leaves the current location: the last location is popped from the stack, and the
    /// location becomes the one now on top of it (the root location "" when none is left).
    /// Returns the location that was left.
    pub fn exit_location(&mut self) -> (r: String)
        requires
            old(self).wf(),
        ensures
            final(self).wf(),
            r == old(self).location,
            final(self).locations@ == (if old(self).locations@.len() > 0 { old(self).locations@.drop_last() }
                else { old(self).locations@ }),
            final(self).locations@.len() == 0 ==> final(self).location@ == ""@,
            final(self).locations@.len() > 0 ==> final(self).location == final(self).locations@.last(),
            final(self).code() == old(self).code(),
            final(self).dry == old(self).dry,
            final(self).fuel == old(self).fuel,
            final(self).current_function == old(self).current_function,
            final(self).variable_count == old(self).variable_count,
            final(self).function_count == old(self).function_count,
    {
        let last_loc = self.location.clone();
        if self.locations.len() > 0 {
            let _left = self.locations.pop();
            proof {
                assert forall|i: int| 0 <= i < self.locations@.len() implies spec_scope_of(self.symbol_scope@, (#[trigger] self.locations@[i])@) is Some by {
                    assert(self.locations@[i] == old(self).locations@[i]);
                }
            }
        }
        let n = self.locations.len();
        if n > 0 {
            self.location = self.locations[n - 1].clone();
        } else {
            self.location = String::new();
            proof { reveal_strlit(""); assert(self.location@ =~= ""@); }
        }
        self.exit_symbol_scope();
        last_loc
    }

    /// Parses and compiles Loop source text with this compiler.
    pub fn compile_generic_loop(&mut self, s: &str) -> (r: Result<Arc, CompilerException>)
        requires
            old(self).wf(),
        ensures
            Compiler::kept(old(self), final(self)),
            r matches Ok(a) ==> a.functions@.len() == final(self).functions@.len()
                && a.functions@[0].code@ == final(self).code(),
            crate::literal_source(s@) && old(self).fuel > 3 ==> r is Ok && emitted(old(self), final(self),
                crate::literal_program_code(crate::lexer::tokenize(s@)[0].0, crate::lexer::tokenize(s@)[0].1)->0),
    {
        let ghost literal = crate::literal_source(s@) && old(self).fuel > 3;
        let lexer = crate::lexer::build_lexer(s);
        proof {
            if literal {
                let tt = crate::lexer::token_texts(lexer.tokens@);
                assert(tt.len() == 2);
                assert(tt[0] == crate::lexer::tokenize(s@)[0]);
                assert(tt[1].0 == crate::lexer::TokenType::Eof);
                assert(lexer.tokens@[0].token == tt[0].0);
                assert(lexer.tokens@[0].literal@ == tt[0].1);
                assert(lexer.tokens@[1].token == crate::lexer::TokenType::Eof);
            }
        }
        let mut parser = crate::parser::build_parser(lexer, self.location.as_str());
        let ghost parser0 = parser;
        proof {
            if literal {
                assert(crate::parser::single_operand_program(parser0));
            }
        }
        let program = match parser.parse() {
            Ok(p) => p,
            Err(e) => {
                return Err(CompilerException::from_syntax(e));
            },
        };
        let ghost stmts = program.statements@;
        proof {
            if literal {
                let e = *program.statements@[0]->Expression_0.expression;
                assert(crate::parser::leaf_expression(parser0, e));
                assert(literal_code(e) == crate::literal_program_code(crate::lexer::tokenize(s@)[0].0,
                    crate::lexer::tokenize(s@)[0].1));
                assert(operand_statements(&*self, program.statements@));
                assert(stmts.drop_last() =~= Seq::<Statement>::empty());
                assert(operand_statements_code(&*self, stmts.drop_last()) == Seq::<char>::empty());
                assert(operand_statements_code(&*self, stmts) == literal_code(e)->0);
            }
        }
        self.compile(program)
    }

    /// One level deeper in dry compilation: compiling computes types without adding code.
    pub fn drier(&mut self)
        ensures
            old(self).dry < u32::MAX ==> final(self).dry == old(self).dry + 1,
            old(self).dry == u32::MAX ==> final(self).dry == old(self).dry,
            *final(self) == (Compiler { dry: final(self).dry, ..*old(self) }),
            Compiler::same_but_code(old(self), final(self)) || final(self).dry != old(self).dry,
            final(self).functions == old(self).functions,
            final(self).scopes == old(self).scopes,
            final(self).symbol_scope == old(self).symbol_scope,
            final(self).location == old(self).location,
            final(self).locations == old(self).locations,
            final(self).fuel == old(self).fuel,
            final(self).current_function == old(self).current_function,
            final(self).scope_index == old(self).scope_index,
            final(self).variable_count == old(self).variable_count,
            final(self).function_count == old(self).function_count,
    {
        if self.dry < u32::MAX {
            self.dry = self.dry + 1;
        }
    }

    /// One level shallower in dry compilation.
    pub fn undrier(&mut self)
        requires
            old(self).dry > 0,
        ensures
            final(self).dry == old(self).dry - 1,
            *final(self) == (Compiler { dry: final(self).dry, ..*old(self) }),
            final(self).functions == old(self).functions,
            final(self).scopes == old(self).scopes,
            final(self).symbol_scope == old(self).symbol_scope,
            final(self).location == old(self).location,
            final(self).locations == old(self).locations,
            final(self).fuel == old(self).fuel,
            final(self).current_function == old(self).current_function,
            final(self).scope_index == old(self).scope_index,
            final(self).variable_count == old(self).variable_count,
            final(self).function_count == old(self).function_count,
    {
        self.dry = self.dry - 1;
    }

    /// The type of a class (or of an inferred symbol) of that name, if one is defined.
    pub fn get_compound_type(&self, name: &str) -> (r: Option<Types>)
        requires
            self.wf(),
        ensures
            r matches Some(t) ==> (t is Compound || t is Auto),
            !crate::text::occurs_somewhere(name@, "::"@) && r is Some ==> ({
                let (s, k) = spec_resolve(self.scopes@, self.current_scope(), name@)->0;
                &&& spec_resolve(self.scopes@, self.current_scope(), name@) is Some
                &&& self.scopes@[s].variables@[k]._type@ == r->0@
                &&& crate::types::keeps_literal_fields(self.scopes@[s].variables@[k]._type, r->0)
            }),
            !crate::text::occurs_somewhere(name@, "::"@) && spec_resolve(self.scopes@, self.current_scope(), name@) is Some
                ==> ({
                let (s, k) = spec_resolve(self.scopes@, self.current_scope(), name@)->0;
                let t = self.scopes@[s].variables@[k]._type;
                (t is Compound || t is Auto) ==> r is Some
            }),
            r is Some ==> lookup(self, name@) is Some && ({
                let (s, k) = lookup(self, name@)->0;
                self.scopes@[s].variables@[k]._type@ == r->0@
            }),
            lookup(self, name@) matches Some((s, k)) ==> ({
                let t = self.scopes@[s].variables@[k]._type;
                (t is Compound || t is Auto) ==> r is Some
            }),
    {
        let class = self.resolve_symbol(name);
        if let Some(class) = class {
            match class._type {
                Types::Compound(c) => {
                    return Some(Types::Compound(c));
                },
                Types::Auto => {
                    return Some(Types::Auto);
                },
                _ => {},
            }
        }
        None
    }

    /// A fresh compiler that continues from a saved state: its counters, and its scopes when
    /// they are well formed (otherwise those of a fresh compiler).
    pub fn default_with_state(compiler_state: CompilerState) -> (r: Compiler)
        ensures
            r.wf(),
            r.function_count == compiler_state.function_count,
            r.variable_count == compiler_state.variable_count,
            state_valid(&compiler_state) ==> r.scopes == compiler_state.scopes && r.symbol_scope == compiler_state.variable_scope,
            r.code() == Seq::<char>::empty(),
            r.dry == 0,
            r.functions@.len() == 1,
            r.functions@[0].name@ == "main"@,
            r.fuel == compile_budget(),
            r.location@ == ""@,
            r.scope_index == 0,
            r.locations@.len() == 0,
            !state_valid(&compiler_state) ==> r.scopes@.len() == 1 && r.scopes@[0].variables@.len() == 0,
    {
        let base = Compiler::default();
        if check_state(&compiler_state) {
            Compiler {
                function_count: compiler_state.function_count,
                variable_count: compiler_state.variable_count,
                scopes: compiler_state.scopes,
                symbol_scope: compiler_state.variable_scope,
                ..base
            }
        } else {
            Compiler {
                function_count: compiler_state.function_count,
                variable_count: compiler_state.variable_count,
                ..base
            }
        }
    }

    /// The state to continue from in a later compilation.
    pub fn get_compiler_state(&self) -> (r: CompilerState)
        ensures
            saved_state(self, &r),
            r.function_count == self.function_count,
            r.variable_count == self.variable_count,
            r.variable_scope@ == self.symbol_scope@,
            r.scopes@.len() == self.scopes@.len(),
            forall|i: int| 0 <= i < self.scopes@.len() ==> (#[trigger] r.scopes@[i]).outer == self.scopes@[i].outer,
            forall|i: int| 0 <= i < self.scopes@.len() ==> copied_scope(self.scopes@[i], #[trigger] r.scopes@[i]),
    {
        CompilerState {
            scopes: duplicate_scopes(&self.scopes),
            variable_scope: duplicate_table(&self.symbol_scope),
            variable_count: self.variable_count,
            function_count: self.function_count,
        }
    }

    /// Adds code to the current function, unless compiling dry.
    pub fn add_to_current_function(&mut self, code: String)
        requires
            old(self).wf(),
        ensures
            final(self).wf(),
            Compiler::same_but_code(old(self), final(self)),
            final(self).fuel == old(self).fuel,
            old(self).dry == 0 ==> final(self).code() == old(self).code() + code@,
            old(self).dry > 0 ==> final(self).code() == old(self).code(),
    {
        self.emit(code.as_str());
    }

    /// Adds code to the current function, unless compiling dry.
    pub fn emit(&mut self, code: &str)
        requires
            old(self).wf(),
        ensures
            final(self).wf(),
            Compiler::same_but_code(old(self), final(self)),
            final(self).fuel == old(self).fuel,
            old(self).dry == 0 ==> final(self).code() == old(self).code() + code@,
            old(self).dry > 0 ==> final(self).code() == old(self).code(),
    {
        if self.dry == 0 {
            let mut f = Function {
                name: String::new(),
                code: String::new(),
                parameters: Vec::new(),
                return_type: Types::Void,
            };
            std::mem::swap(&mut f, &mut self.functions[0]);
            append_str(&mut f.code, code);
            std::mem::swap(&mut f, &mut self.functions[0]);
        }
    }

    /// Replaces text in the code of the current function, unless compiling dry.
    pub fn replace_at_current_function(&mut self, replace: String, with: String)
        requires
            old(self).wf(),
        ensures
            final(self).wf(),
            Compiler::same_but_code(old(self), final(self)),
            final(self).fuel == old(self).fuel,
            old(self).dry == 0 ==> final(self).code() == replace_all(old(self).code(), replace@, with@),
            old(self).dry > 0 ==> final(self).code() == old(self).code(),
    {
        if self.dry == 0 {
            let mut f = Function {
                name: String::new(),
                code: String::new(),
                parameters: Vec::new(),
                return_type: Types::Void,
            };
            std::mem::swap(&mut f, &mut self.functions[0]);
            f.code = replace_str(f.code.as_str(), replace.as_str(), with.as_str());
            std::mem::swap(&mut f, &mut self.functions[0]);
        }
    }

    /// The current scope of the current location.
    pub fn get_symbol_scope(&self) -> (r: usize)
        requires
            self.wf(),
        ensures
            r as int == self.current_scope(),
            r < self.scopes@.len(),
    {
        proof { lemma_scope_of_bound(self.symbol_scope@, self.location@, self.scopes@.len()); }
        scope_of(&self.symbol_scope, self.location.as_str()).unwrap()
    }

    /// Where the variable with this index and name is, in the current scope of location `loc`
    /// (the current location by default): the scope and the position in it.
    pub fn get_symbol_mutable(&self, index: u32, name: &str, loc: Option<String>) -> (r: Option<(usize, usize)>)
        requires
            self.wf(),
        ensures
            r matches Some((s, k)) ==> s < self.scopes@.len() && k < self.scopes@[s as int].variables@.len()
                && self.scopes@[s as int].variables@[k as int].index == index
                && self.scopes@[s as int].variables@[k as int].name@ == name@,
            loc is None ==> (r matches Some((s, k)) ==> s as int == self.current_scope()),
            spec_scope_of(self.symbol_scope@, if loc is Some { loc->0@ } else { self.location@ }) is None ==> r is None,
            spec_scope_of(self.symbol_scope@, if loc is Some { loc->0@ } else { self.location@ }) matches Some(s)
                ==> (r is Some <==> (s < self.scopes@.len() && holds_variable(self.scopes@[s as int], index, name@))),
            spec_scope_of(self.symbol_scope@, if loc is Some { loc->0@ } else { self.location@ }) matches Some(s)
                ==> (r matches Some((s2, k)) ==> s2 == s && forall|j: int| 0 <= j < k
                    ==> !((#[trigger] self.scopes@[s as int].variables@[j]).index == index
                        && self.scopes@[s as int].variables@[j].name@ == name@)),
    {
        let ghost want = if loc is Some { loc->0@ } else { self.location@ };
        let l = match loc {
            Some(l) => l,
            None => self.location.clone(),
        };
        proof {
            lemma_scope_of_bound(self.symbol_scope@, l@, self.scopes@.len());
            assert(l@ == want);
        }
        match scope_of(&self.symbol_scope, l.as_str()) {
            Some(s) => match crate::compiler::variable_table::get_variable_mutable(&self.scopes, s, index, name) {
                Some(k) => {
                    proof {
                        assert(self.scopes@[s as int].variables@[k as int].index == index);
                        assert(holds_variable(self.scopes@[s as int], index, name@));
                    }
                    Some((s, k))
                },
                None => {
                    proof {
                        assert(!(s < self.scopes@.len() && holds_variable(self.scopes@[s as int], index, name@)));
                    }
                    None
                },
            },
            None => None,
        }
    }

    /// Enters a deeper scope inside the current one.
    pub fn enter_symbol_scope(&mut self)
        requires
            old(self).wf(),
        ensures
            final(self).wf(),
            final(self).scopes@.len() == old(self).scopes@.len() + 1,
            final(self).scopes@.drop_last() == old(self).scopes@,
            final(self).scopes@.last().variables@.len() == 0,
            final(self).scopes@.last().outer == Some(old(self).current_scope() as usize),
            final(self).current_scope() == old(self).scopes@.len(),
            entered_scope(old(self), final(self)),
            old(self).scope_index < i32::MAX ==> final(self).scope_index == old(self).scope_index + 1,
            forall|l: Seq<char>| l != old(self).location@ ==> spec_scope_of(final(self).symbol_scope@, l) == spec_scope_of(old(self).symbol_scope@, l),
            final(self).location == old(self).location,
            final(self).locations == old(self).locations,
            final(self).code() == old(self).code(),
            final(self).functions == old(self).functions,
            final(self).dry == old(self).dry,
            final(self).fuel == old(self).fuel,
            final(self).current_function == old(self).current_function,
            final(self).variable_count == old(self).variable_count,
            final(self).function_count == old(self).function_count,
    {
        let current = self.get_symbol_scope();
        let scope = build_deeper_variable_scope(Some(current));
        let id = self.scopes.len();
        self.scopes.push(scope);
        if self.scope_index < i32::MAX {
            self.scope_index = self.scope_index + 1;
        }
        let ghost before = self.symbol_scope@;
        set_scope_of(&mut self.symbol_scope, self.location.as_str(), id);
        proof {
            assert(self.scopes@.drop_last() =~= old(self).scopes@);
            assert forall|i: int| 0 <= i < self.symbol_scope@.len() implies (#[trigger] self.symbol_scope@[i]).1 < self.scopes@.len() by {
                if self.symbol_scope@[i].1 != id {
                    let j = choose|j: int| 0 <= j < before.len() && before[j].1 == self.symbol_scope@[i].1;
                }
            }
            assert(scopes_wf(self.scopes@)) by {
                assert forall|k: int| 0 <= k < self.scopes@.len() implies ((#[trigger] self.scopes@[k]).outer matches Some(o) ==> o < k) by {
                    if k < self.scopes@.len() - 1 {
                        assert(self.scopes@[k] == old(self).scopes@[k]);
                    }
                }
            }
            if self.location@ != ""@ {
                assert(spec_scope_of(self.symbol_scope@, ""@) == spec_scope_of(old(self).symbol_scope@, ""@));
            }
            assert forall|i: int| 0 <= i < self.locations@.len() implies spec_scope_of(self.symbol_scope@, (#[trigger] self.locations@[i])@) is Some by {
                if self.locations@[i]@ != self.location@ {
                    assert(spec_scope_of(self.symbol_scope@, self.locations@[i]@) == spec_scope_of(old(self).symbol_scope@, self.locations@[i]@));
                }
            }
        }
    }

    /// Leaves the current scope: the current location's scope becomes the one around it.
    pub fn exit_symbol_scope(&mut self)
        requires
            old(self).wf(),
        ensures
            final(self).wf(),
            final(self).scopes == old(self).scopes,
            old(self).scope_index > i32::MIN ==> final(self).scope_index == old(self).scope_index - 1,
            old(self).scopes@[old(self).current_scope()].outer matches Some(o)
                ==> final(self).current_scope() == o as int,
            old(self).scopes@[old(self).current_scope()].outer is None
                ==> final(self).symbol_scope == old(self).symbol_scope,
            exited_scope(old(self), final(self)),
            forall|l: Seq<char>| l != old(self).location@ ==> spec_scope_of(final(self).symbol_scope@, l) == spec_scope_of(old(self).symbol_scope@, l),
            final(self).location == old(self).location,
            final(self).locations == old(self).locations,
            final(self).code() == old(self).code(),
            final(self).functions == old(self).functions,
            final(self).dry == old(self).dry,
            final(self).fuel == old(self).fuel,
            final(self).current_function == old(self).current_function,
            final(self).variable_count == old(self).variable_count,
            final(self).function_count == old(self).function_count,
    {
        let current = self.get_symbol_scope();
        let outer = self.scopes[current].outer;
        if self.scope_index > i32::MIN {
            self.scope_index = self.scope_index - 1;
        }
        if let Some(o) = outer {
            let ghost before = self.symbol_scope@;
            set_scope_of(&mut self.symbol_scope, self.location.as_str(), o);
            proof {
                assert(o < current);
                assert forall|i: int| 0 <= i < self.symbol_scope@.len() implies (#[trigger] self.symbol_scope@[i]).1 < self.scopes@.len() by {
                    if self.symbol_scope@[i].1 != o {
                        let j = choose|j: int| 0 <= j < before.len() && before[j].1 == self.symbol_scope@[i].1;
                    }
                }
                if self.location@ != ""@ {
                    assert(spec_scope_of(self.symbol_scope@, ""@) == spec_scope_of(old(self).symbol_scope@, ""@));
                }
                assert forall|i: int| 0 <= i < self.locations@.len() implies spec_scope_of(self.symbol_scope@, (#[trigger] self.locations@[i])@) is Some by {
                    if self.locations@[i]@ != self.location@ {
                        assert(spec_scope_of(self.symbol_scope@, self.locations@[i]@) == spec_scope_of(old(self).symbol_scope@, self.locations@[i]@));
                    }
                }
            }
        }
    }

    /// The result of the compilation so far.
    pub fn get_arc(&self) -> (r: Arc)
        ensures
            r.functions@.len() == self.functions@.len(),
            forall|i: int| 0 <= i < self.functions@.len() ==> (#[trigger] r.functions@[i]).code == self.functions@[i].code
                && r.functions@[i].name == self.functions@[i].name,
            r.imports@ == self.imports@,
    {
        let mut functions: Vec<Function> = Vec::new();
        let mut i: usize = 0;
        while i < self.functions.len()
            invariant
                i <= self.functions.len(),
                functions@.len() == i,
                forall|j: int| 0 <= j < i ==> (#[trigger] functions@[j]).code == self.functions@[j].code
                    && functions@[j].name == self.functions@[j].name,
            decreases self.functions.len() - i,
        {
            functions.push(self.functions[i].duplicate());
            i = i + 1;
        }
        Arc { functions, imports: crate::parser::statement::duplicate_strings(&self.imports) }
    }

    /// Defines a new variable in the current scope, numbered with the next variable index.
    /// Fails with `TooManyLocals` when the indices are exhausted.
    pub fn define_symbol(&mut self, name: String, var_type: Types, parameter_id: i32) -> (r: Result<Variable, CompilerException>)
        requires
            old(self).wf(),
        ensures
            final(self).wf(),
            r is Err <==> old(self).variable_count == u32::MAX,
            r is Err ==> *final(self) == *old(self)
                && r == Err::<Variable, CompilerException>(unplaced(CompilerExceptionCode::TooManyLocals)),
            r matches Ok(v) ==> v.index == old(self).variable_count && v.name == name && v._type@ == var_type@
                && v.parameter_id == parameter_id && v.function_identifier == old(self).function_count
                && v.modifiers == (Modifiers { constant: false, public: false, module: old(self).location })
                && final(self).variable_count == old(self).variable_count + 1,
            r is Ok ==> ({
                let t = spec_define_target(old(self).scopes@, old(self).current_scope(), name@);
                &&& final(self).scopes@.len() == old(self).scopes@.len()
                &&& final(self).scopes@[t].variables@ == old(self).scopes@[t].variables@.push(final(self).scopes@[t].variables@.last())
                &&& final(self).scopes@[t].outer == old(self).scopes@[t].outer
                &&& final(self).scopes@[t].variables@.last().index == old(self).variable_count
                &&& final(self).scopes@[t].variables@.last().name == name
                &&& final(self).scopes@[t].variables@.last()._type@ == var_type@
                &&& forall|j: int| 0 <= j < old(self).scopes@.len() && j != t ==> final(self).scopes@[j] == old(self).scopes@[j]
            }),
            final(self).symbol_scope == old(self).symbol_scope,
            final(self).location == old(self).location,
            final(self).locations == old(self).locations,
            final(self).functions == old(self).functions,
            final(self).dry == old(self).dry,
            final(self).fuel == old(self).fuel,
            final(self).current_function == old(self).current_function,
            final(self).scope_index == old(self).scope_index,
            final(self).function_count == old(self).function_count,
    {
        if self.variable_count == u32::MAX {
            return Err(CompilerException::new(0, 0, CompilerExceptionCode::TooManyLocals));
        }
        let id = self.get_symbol_scope();
        let modifiers = Modifiers::new(false, self.location.clone(), false);
        let var = crate::compiler::variable_table::define(
            &mut self.scopes,
            id,
            self.variable_count,
            name,
            var_type,
            modifiers,
            parameter_id,
            self.function_count,
        );
        self.variable_count = self.variable_count + 1;
        proof {
            lemma_define_target_bounds(old(self).scopes@, id as int, var.name@);
        }
        Ok(var)
    }

    /// Finds a symbol. A name `module::name` is first looked up in that module's scope; any
    /// name is then looked up from the current scope outwards.
    pub fn resolve_symbol(&self, name: &str) -> (r: Option<Variable>)
        requires
            self.wf(),
        ensures
            !crate::text::occurs_somewhere(name@, "::"@) ==> ((r is Some) == (spec_resolve(self.scopes@, self.current_scope(), name@) is Some)),
            !crate::text::occurs_somewhere(name@, "::"@) ==> (r matches Some(v) ==> ({
                let (s, k) = spec_resolve(self.scopes@, self.current_scope(), name@)->0;
                let w = self.scopes@[s].variables@[k];
                &&& v.index == w.index
                &&& v.name@ == name@
                &&& v._type@ == w._type@
                &&& crate::types::keeps_literal_fields(w._type, v._type)
                &&& v.modifiers == w.modifiers
                &&& v.parameter_id == w.parameter_id
                &&& v.function_identifier == w.function_identifier
            })),
            (r is Some) == (lookup(self, name@) is Some),
            r matches Some(v) ==> ({
                let (s, k) = lookup(self, name@)->0;
                let w = self.scopes@[s].variables@[k];
                &&& v.index == w.index
                &&& v._type@ == w._type@
                &&& v.modifiers == w.modifiers
                &&& v.parameter_id == w.parameter_id
                &&& v.function_identifier == w.function_identifier
            }),
    {
        let chars = str_to_chars(name);
        let sep: Vec<char> = vec![':', ':'];
        proof { reveal_strlit("::"); assert(sep@ =~= "::"@); assert(sep@.len() == 2); }
        match find_from(chars.as_slice(), sep.as_slice(), 0) {
            Some(k) => {
                let module = chars_range(chars.as_slice(), 0, k);
                let total = chars.len();
                assert(k + 2 <= total);
                let rest_start = k + 2;
                let end = match find_from(chars.as_slice(), sep.as_slice(), rest_start) {
                    Some(e) => e,
                    None => chars.len(),
                };
                let inner = chars_range(chars.as_slice(), rest_start, end);
                proof {
                    lemma_scope_of_bound(self.symbol_scope@, module@, self.scopes@.len());
                    lemma_sep_from(name@, 0, k as int);
                    if end < chars.len() {
                        lemma_sep_from(name@, k + 2, end as int);
                    } else {
                        lemma_sep_from_none(name@, k + 2);
                    }
                }
                if let Some(m) = scope_of(&self.symbol_scope, module.as_str()) {
                    let var = crate::compiler::variable_table::resolve(&self.scopes, m, inner.as_str());
                    if var.is_some() {
                        return var;
                    }
                }
            },
            None => {
                proof { lemma_sep_from_none(name@, 0); }
            },
        }
        let id = self.get_symbol_scope();
        crate::compiler::variable_table::resolve(&self.scopes, id, name)
    }

    /// Compiles an expression node.
    fn compile_expression(&mut self, expr: Expression) -> (r: Result<Types, CompilerException>)
        requires
            old(self).wf(),
        ensures
            Compiler::kept(old(self), final(self)),
            old(self).fuel > 0 && operand_code(old(self), expr) is Some
                ==> (r matches Ok(t) && t@ == operand_type(old(self), expr)) && compiled_operand(old(self), final(self), expr),
            old(self).fuel > 0 && unknown_name(old(self), expr) ==> r == Err::<Types, CompilerException>(
                unknown_name_error(old(self), expr)) && *final(self) == (Compiler { fuel: (old(self).fuel - 1) as u64, ..*old(self) }),
            old(self).fuel > 0 && expr is Identifier ==> identifier_compiled(old(self), final(self), expr->Identifier_0.value, r),
            old(self).fuel > 3 && expr is Suffix && value_code(old(self), expr) is Some
                ==> (r matches Ok(t) && t@ == TypesV::Basic(crate::types::BaseTypesV::Integer))
                    && emitted(old(self), final(self), value_code(old(self), expr)->0) && final(self).fuel == old(self).fuel - 4,
        decreases old(self).fuel,
    {
        if !self.spend() {
            return Err(unknown_error());
        }
        match expr {
            Expression::Identifier(identifier) => compile_expression_identifier(self, identifier),
            Expression::Integer(integer) => compile_expression_integer(self, integer),
            Expression::Suffix(suffix) => {
                proof { reveal(value_code); }
                compile_expression_suffix(self, *suffix)
            },
            Expression::Boolean(boolean) => compile_expression_boolean(self, boolean),
            Expression::Function(func) => compile_expression_function(self, func),
            Expression::Conditional(conditional) => compile_expression_conditional(self, *conditional),
            Expression::Null(_) => compile_expression_null(self),
            Expression::Call(call) => compile_expression_call(self, call),
            Expression::Float(float) => compile_expression_float(self, float),
            Expression::String(string) => compile_expression_string(self, string),
            Expression::Index(index) => compile_expression_index(self, *index),
            Expression::Array(array) => compile_expression_array(self, *array),
            Expression::AssignIndex(assign) => compile_expression_assign_index(self, *assign),
            Expression::Loop(lp) => compile_loop_expression(self, lp),
            Expression::LoopIterator(lp) => compile_loop_iterator_expression(self, lp),
            Expression::LoopArrayIterator(lp) => compile_loop_array_iterator_expression(self, lp),
            Expression::Hashmap(hash) => compile_expression_hashmap(self, hash),
            Expression::Slice(slice) => compile_expression_slice(self, slice),
        }
    }

    /// Compiles the block of a loop in a new scope, without braces. Its type is that of its
    /// return statement, or of its last statement when that is an expression.
    fn compile_loop_block(&mut self, block: Block) -> (r: Result<Types, CompilerException>)
        requires
            old(self).wf(),
        ensures
            Compiler::kept(old(self), final(self)),
            literal_statements(block.statements@) && old(self).fuel > 2 * block.statements@.len() + 1 ==> ({
                let stmts = block.statements@;
                &&& r matches Ok(t) && t@ == (if stmts.len() == 0 { TypesV::Void } else {
                    literal_type(*stmts.last()->Expression_0.expression) })
                &&& old(self).dry == 0 ==> final(self).code() == old(self).code() + operand_statements_code(old(self), stmts)
                &&& final(self).fuel == old(self).fuel - 1 - 2 * stmts.len()
                &&& final(self).variable_count == old(self).variable_count
                &&& old(self).scope_index < i32::MAX ==> final(self).scope_index == old(self).scope_index
            }),
        decreases old(self).fuel,
    {
        let ghost orig = block.statements@;
        let ghost lit = literal_statements(orig) && old(self).fuel > 2 * orig.len() + 1;
        if !self.spend() {
            return Err(unknown_error());
        }
        let mut return_type = Types::Void;
        self.enter_symbol_scope();
        let ghost entered = *self;
        proof {
            if lit {
                assert(orig.take(0) =~= Seq::<Statement>::empty());
            }
        }
        let n = block.statements.len();
        let mut statements = block.statements;
        statements = reversed(statements);
        let mut index: usize = 0;
        while statements.len() > 0
            invariant
                Compiler::kept(old(self), self),
                old(self).wf(),
                self.fuel < old(self).fuel,
                index + statements.len() == n,
                n == orig.len(),
                orig == block.statements@,
                forall|i: int| 0 <= i < statements@.len() ==> #[trigger] statements@[i] == orig[n - 1 - i],
                lit == (literal_statements(orig) && old(self).fuel > 2 * orig.len() + 1),
                lit ==> self.fuel == old(self).fuel - 1 - 2 * index,
                lit ==> self.scope_index == entered.scope_index && self.variable_count == old(self).variable_count,
                old(self).scope_index < i32::MAX ==> entered.scope_index == old(self).scope_index + 1,
                lit && old(self).dry == 0 ==> self.code() == old(self).code()
                    + operand_statements_code(old(self), orig.take(index as int)),
                lit && (index < n || n == 0) ==> return_type@ == TypesV::Void,
                lit && index == n && n > 0 ==> return_type@ == literal_type(*orig[n - 1]->Expression_0.expression),
            decreases statements.len(),
        {
            let statement = statements.pop().unwrap();
            proof {
                if lit {
                    assert(statement == orig[index as int]);
                    assert(literal_code(*orig[index as int]->Expression_0.expression) is Some);
                }
            }
            let ghost k = index as int;
            index = index + 1;
            let is_return = match &statement {
                Statement::Return(_) => true,
                _ => false,
            };
            let is_expression = match &statement {
                Statement::Expression(_) => true,
                _ => false,
            };
            let result = self.compile_statement(statement);
            match result {
                Ok(t) => {
                    if is_return || (index == n && is_expression) {
                        return_type = t;
                    }
                },
                Err(e) => {
                    return Err(e);
                },
            }
            proof {
                if lit {
                    assert(orig.take(k + 1).drop_last() =~= orig.take(k));
                    assert(orig.take(k + 1).last() == orig[k]);
                    if old(self).dry == 0 {
                        assert(self.code() =~= old(self).code() + operand_statements_code(old(self), orig.take(k + 1)));
                    }
                }
            }
        }
        proof {
            if lit {
                assert(orig.take(n as int) =~= orig);
            }
        }
        self.exit_symbol_scope();
        Ok(return_type)
    }

    /// Compiles a block in a new scope, in braces. Expressions with no effect are left out
    /// unless last; the last expression is returned (`.RETURN { ... };`) and gives the block
    /// its type, as does a return statement.
    fn compile_block(&mut self, block: Block, _anonymous: bool) -> (r: Result<Types, CompilerException>)
        requires
            old(self).wf(),
        ensures
            Compiler::kept(old(self), final(self)),
            old(self).fuel > 2 && simple_block(old(self), block.statements@)
                ==> (r matches Ok(t) && t@ == simple_block_type(old(self), block.statements@))
                    && (old(self).dry == 0 ==> final(self).code() == old(self).code()
                        + simple_block_code(old(self), block.statements@))
                    && (old(self).scope_index < i32::MAX ==> final(self).scope_index == old(self).scope_index)
                    && final(self).scopes@.drop_last() == old(self).scopes@
                    && final(self).scopes@.len() == old(self).scopes@.len() + 1
                    && final(self).current_scope() == old(self).current_scope()
                    && final(self).variable_count == old(self).variable_count,
        decreases old(self).fuel,
    {
        let ghost orig = block.statements@;
        let ghost simple = old(self).fuel > 2 && simple_block(old(self), block.statements@);
        let ghost c0 = old(self).code();
        if !self.spend() {
            return Err(unknown_error());
        }
        let ghost f1 = self.fuel;
        let mut block_type = Types::Void;
        let ghost before = *self;
        self.enter_symbol_scope();
        proof {
            if orig.len() > 0 && orig.last() is Expression && *orig.last()->Expression_0.expression is Identifier {
                lemma_scope_of_bound(before.symbol_scope@, before.location@, before.scopes@.len());
                law_enter_keeps_names(before.scopes@, self.scopes@, before.current_scope() as usize,
                    orig.last()->Expression_0.expression->Identifier_0.value@);
            }
        }
        self.emit("{");
        let ghost entered = *self;
        let ghost c1 = self.code();
        proof {
            if simple && orig.len() > 0 {
                assert(operand_code(&entered, *orig.last()->Expression_0.expression)
                    == operand_code(old(self), *orig.last()->Expression_0.expression));
                assert(operand_type(&entered, *orig.last()->Expression_0.expression)
                    == operand_type(old(self), *orig.last()->Expression_0.expression));
            }
        }
        let n = block.statements.len();
        let mut statements = block.statements;
        statements = reversed(statements);
        let mut index: usize = 0;
        while statements.len() > 0
            invariant
                Compiler::kept(old(self), self),
                old(self).wf(),
                self.fuel < old(self).fuel,
                index + statements.len() == n,
                n == orig.len(),
                orig == block.statements@,
                forall|j: int| 0 <= j < statements@.len() ==> #[trigger] statements@[j] == orig[n - 1 - j],
                simple == (old(self).fuel > 2 && simple_block(old(self), orig)),
                simple ==> f1 == old(self).fuel - 1 && entered.fuel == f1 && c1 == entered.code(),
                simple ==> self.scope_index == entered.scope_index,
                simple ==> self.scopes == entered.scopes && self.symbol_scope == entered.symbol_scope
                    && self.location == entered.location && self.variable_count == entered.variable_count,
                old(self).scope_index < i32::MAX ==> entered.scope_index == old(self).scope_index + 1,
                simple && n > 0 ==> operand_code(&entered, *orig.last()->Expression_0.expression)
                    == operand_code(old(self), *orig.last()->Expression_0.expression)
                    && operand_type(&entered, *orig.last()->Expression_0.expression)
                    == operand_type(old(self), *orig.last()->Expression_0.expression),
                simple && (index < n || n == 0) ==> *self == entered && block_type@ == TypesV::Void,
                simple && index == n && n > 0 ==> block_type@ == simple_block_type(old(self), orig)
                    && (old(self).dry == 0 ==> self.code() == c1 + ".RETURN { "@
                        + operand_code(old(self), *orig.last()->Expression_0.expression)->0 + "};"@),
            decreases statements.len(),
        {
            let ghost k = index as int;
            let statement = statements.pop().unwrap();
            proof {
                assert(statement == orig[k]);
                if simple && k < n - 1 {
                    assert(skipped_statement(orig[k]));
                }
            }
            index = index + 1;
            let last = index == n;
            match statement {
                Statement::Expression(exp) => {
                    if !last && is_inert(&exp.expression) {
                        continue;
                    }
                    let assign = is_assign_index(&exp.expression);
                    if last && !assign {
                        self.emit(".RETURN { ");
                    }
                    proof {
                        if simple {
                            assert(k == n - 1);
                            assert(operand_code(&entered, *exp.expression) is Some);
                            assert(self.fuel > 0);
                        }
                    }
                    let result = self.compile_expression(*exp.expression);
                    if last {
                        if let Ok(t) = &result {
                            block_type = t.duplicate();
                        }
                        if !assign {
                            self.emit("};");
                        }
                    }
                    if let Err(e) = result {
                        return Err(e);
                    }
                },
                other => {
                    proof {
                        if simple {
                            assert(orig[k] is Expression);
                            assert(other == orig[k]);
                        }
                    }
                    let is_return = match &other {
                        Statement::Return(_) => true,
                        _ => false,
                    };
                    let result = self.compile_statement(other);
                    match result {
                        Ok(t) => {
                            if is_return {
                                block_type = t;
                            }
                        },
                        Err(e) => {
                            return Err(e);
                        },
                    }
                },
            }
        }
        self.emit("}");
        let ghost before_exit = *self;
        self.exit_symbol_scope();
        proof {
            if simple && old(self).dry == 0 {
                assert(self.code() =~= c0 + simple_block_code(old(self), orig));
            }
            if simple {
                lemma_scope_of_bound(before.symbol_scope@, before.location@, before.scopes@.len());
                assert(before_exit.current_scope() == entered.current_scope());
                law_enter_exit_scope(&before, &entered, self);
            }
        }
        Ok(block_type)
    }

    /// Compiles a statement node.
    fn compile_statement(&mut self, stmt: Statement) -> (r: Result<Types, CompilerException>)
        requires
            old(self).wf(),
        ensures
            Compiler::kept(old(self), final(self)),
            old(self).fuel > 1 && stmt is Expression && operand_code(old(self), *stmt->Expression_0.expression) is Some
                ==> (r matches Ok(t) && t@ == operand_type(old(self), *stmt->Expression_0.expression))
                    && emitted(old(self), final(self), operand_code(old(self), *stmt->Expression_0.expression)->0)
                    && final(self).fuel == old(self).fuel - 2,
            old(self).fuel > 1 && stmt is Expression && unknown_name(old(self), *stmt->Expression_0.expression)
                ==> r == Err::<Types, CompilerException>(unknown_name_error(old(self), *stmt->Expression_0.expression))
                    && final(self).code() == old(self).code(),
        decreases old(self).fuel,
    {
        if !self.spend() {
            return Err(unknown_error());
        }
        match stmt {
            Statement::VariableDeclaration(var) => compile_statement_variable_declaration(self, var),
            Statement::ConstantDeclaration(con) => compile_statement_constant_declaration(self, con),
            Statement::Expression(expr) => self.compile_expression(*expr.expression),
            Statement::Block(block) => self.compile_block(block, false),
            Statement::VariableAssign(variable) => compile_statement_variable_assign(self, variable),
            Statement::Return(ret) => compile_return_statement(self, ret),
            Statement::Import(import) => compile_import_statement(self, import),
            Statement::Export(export) => compile_export_statement(self, export),
            Statement::Break(br) => compile_break_statement(self, br),
            Statement::Class(class) => compile_class_statement(self, class),
            Statement::Extend(extend) => compile_extend_statement(self, extend),
        }
    }

    /// Gives the variable at position `k` of scope `s` a new type.
    pub fn set_symbol_type(&mut self, s: usize, k: usize, t: Types)
        requires
            old(self).wf(),
            s < old(self).scopes@.len(),
            k < old(self).scopes@[s as int].variables@.len(),
        ensures
            final(self).wf(),
            final(self).scopes@.len() == old(self).scopes@.len(),
            final(self).scopes@[s as int].variables@.len() == old(self).scopes@[s as int].variables@.len(),
            final(self).scopes@[s as int].variables@[k as int]._type == t,
            final(self).scopes@[s as int].variables@[k as int].index == old(self).scopes@[s as int].variables@[k as int].index,
            final(self).scopes@[s as int].variables@[k as int].name == old(self).scopes@[s as int].variables@[k as int].name,
            final(self).functions == old(self).functions,
            final(self).dry == old(self).dry,
            final(self).fuel == old(self).fuel,
            final(self).current_function == old(self).current_function,
            final(self).scope_index == old(self).scope_index,
            final(self).symbol_scope == old(self).symbol_scope,
            final(self).location == old(self).location,
            final(self).variable_count == old(self).variable_count,
            final(self).function_count == old(self).function_count,
    {
        crate::compiler::variable_table::set_variable_type(&mut self.scopes, s, k, t);
        proof {
            assert forall|i: int| 0 <= i < self.scopes@.len() implies ((#[trigger] self.scopes@[i]).outer matches Some(o) ==> o < i) by {
                assert(self.scopes@[i].outer == old(self).scopes@[i].outer);
            }
        }
    }

    /// Marks the variable at position `k` of scope `s` public or not.
    pub fn set_symbol_public(&mut self, s: usize, k: usize, public: bool)
        requires
            old(self).wf(),
            s < old(self).scopes@.len(),
            k < old(self).scopes@[s as int].variables@.len(),
        ensures
            final(self).wf(),
            final(self).scopes@.len() == old(self).scopes@.len(),
            final(self).scopes@[s as int].variables@.len() == old(self).scopes@[s as int].variables@.len(),
            final(self).scopes@[s as int].variables@[k as int].modifiers.public == public,
            final(self).scopes@[s as int].variables@[k as int].index == old(self).scopes@[s as int].variables@[k as int].index,
            final(self).scopes@[s as int].variables@[k as int].name == old(self).scopes@[s as int].variables@[k as int].name,
            final(self).functions == old(self).functions,
            final(self).dry == old(self).dry,
            final(self).fuel == old(self).fuel,
            final(self).current_function == old(self).current_function,
            final(self).scope_index == old(self).scope_index,
            final(self).symbol_scope == old(self).symbol_scope,
            final(self).location == old(self).location,
            final(self).variable_count == old(self).variable_count,
            final(self).function_count == old(self).function_count,
    {
        crate::compiler::variable_table::set_variable_public(&mut self.scopes, s, k, public);
        proof {
            assert forall|i: int| 0 <= i < self.scopes@.len() implies ((#[trigger] self.scopes@[i]).outer matches Some(o) ==> o < i) by {
                assert(self.scopes@[i].outer == old(self).scopes@[i].outer);
            }
        }
    }

    /// Marks the variable at position `k` of scope `s` as constant or not.
    pub fn set_symbol_constant(&mut self, s: usize, k: usize, constant: bool)
        requires
            old(self).wf(),
            s < old(self).scopes@.len(),
            k < old(self).scopes@[s as int].variables@.len(),
        ensures
            final(self).wf(),
            final(self).scopes@.len() == old(self).scopes@.len(),
            final(self).scopes@[s as int].variables@.len() == old(self).scopes@[s as int].variables@.len(),
            final(self).scopes@[s as int].variables@[k as int].modifiers.constant == constant,
            final(self).scopes@[s as int].variables@[k as int].index == old(self).scopes@[s as int].variables@[k as int].index,
            final(self).scopes@[s as int].variables@[k as int].name == old(self).scopes@[s as int].variables@[k as int].name,
            final(self).functions == old(self).functions,
            final(self).dry == old(self).dry,
            final(self).fuel == old(self).fuel,
            final(self).current_function == old(self).current_function,
            final(self).scope_index == old(self).scope_index,
            final(self).symbol_scope == old(self).symbol_scope,
            final(self).location == old(self).location,
            final(self).variable_count == old(self).variable_count,
            final(self).function_count == old(self).function_count,
    {
        crate::compiler::variable_table::set_variable_constant(&mut self.scopes, s, k, constant);
        proof {
            assert forall|i: int| 0 <= i < self.scopes@.len() implies ((#[trigger] self.scopes@[i]).outer matches Some(o) ==> o < i) by {
                assert(self.scopes@[i].outer == old(self).scopes@[i].outer);
            }
        }
    }

    /// Records the error that ends compilation.
    pub fn throw_exception(&mut self, message: String, extra_message: Option<String>)
        ensures
            *final(self) == (Compiler { thrown: Some(CompilerError { error_message: message, extra_message }), ..*old(self) }),
    {
        self.thrown = Some(CompilerError { error_message: message, extra_message });
    }
}

impl Default for Compiler {
    /// A compiler at the root location "", with one empty scope and an empty "main" function.
    fn default() -> (r: Compiler)
        ensures
            r.wf(),
            r.code() == Seq::<char>::empty(),
            r.dry == 0,
            r.scope_index == 0,
            r.variable_count == 0,
            r.function_count == 0,
            r.location@ == ""@,
            r.scopes@.len() == 1,
            r.scopes@[0].variables@.len() == 0,
            r.locations@.len() == 0,
            r.functions@.len() == 1,
            r.functions@[0].name@ == "main"@,
            r.fuel == compile_budget(),
            r.imports@.len() == 0,
            r.extensions@.len() == 0,
            r.breaks@.len() == 0,
            r.function_stack@.len() == 0,
            r.sources@.len() == 0,
            r.pending_read is None,
            r.thrown is None,
            r.last_extension_type is None,
    {
        let mut scopes: Vec<VariableScope> = Vec::new();
        scopes.push(build_variable_scope());
        let mut symbol_scope: Vec<(String, usize)> = Vec::new();
        symbol_scope.push((String::new(), 0));
        let mut functions: Vec<Function> = Vec::new();
        functions.push(Function {
            name: owned("main"),
            code: String::new(),
            parameters: Vec::new(),
            return_type: Types::Void,
        });
        let r = Compiler {
            scope_index: 0,
            scopes,
            symbol_scope,
            variable_count: 0,
            last_extension_type: None,
            location: String::new(),
            locations: Vec::new(),
            export_name: String::new(),
            prev_location: String::new(),
            breaks: Vec::new(),
            imports: Vec::new(),
            functions,
            function_stack: Vec::new(),
            function_count: 0,
            current_function: owned("main"),
            extensions: Vec::new(),
            dry: 0,
            base_location: String::new(),
            compiled_from: String::new(),
            fuel: 4294967295u64,
            sources: Vec::new(),
            pending_read: None,
            thrown: None,
        };
        proof {
            reveal_strlit("");
            assert(r.location@ =~= ""@);
            assert(r.symbol_scope@[0].0@ =~= ""@);
            assert(r.symbol_scope@.last().0@ =~= ""@);
            assert(spec_scope_of(r.symbol_scope@.drop_last(), ""@) is None);
            assert(r.symbol_scope@.drop_last() =~= Seq::<(String, usize)>::empty());
            assert(spec_scope_of(r.symbol_scope@, ""@) == Some(0usize));
        }
        r
    }
}

} // verus!
