//! The symbols a program defines, kept in nested scopes. Scopes live in one list; a scope
//! refers to the scope around it by its position in that list, which is always smaller than
//! its own.
use vstd::prelude::*;
use crate::compiler::modifiers::Modifiers;
use crate::types::{Types, TypesV};
use crate::text::{owned, concat, u32_to_string, starts_with, nat_digits};

verus! {

pub struct Variable {
    pub index: u32,
    pub name: String,
    pub _type: Types,
    pub modifiers: Modifiers,
    pub parameter_id: i32,
    pub function_identifier: i32,
}

pub struct VariableScope {
    pub variables: Vec<Variable>,
    pub outer: Option<usize>,
}

/// A scope with no variables and no enclosing scope.
pub fn build_variable_scope() -> (r: VariableScope)
    ensures
        r.variables@.len() == 0,
        r.outer is None,
{
    VariableScope { variables: Vec::new(), outer: None }
}

/// A scope with no variables inside the given scope.
pub fn build_deeper_variable_scope(outer: Option<usize>) -> (r: VariableScope)
    ensures
        r.variables@.len() == 0,
        r.outer == outer,
{
    VariableScope { variables: Vec::new(), outer }
}

/// The name of a variable in Arc: "class_<index>" for classes, "var_<index>" otherwise.
pub open spec fn variable_arc_name(index: u32, t: TypesV) -> Seq<char> {
    if t is Compound { "class_"@ + nat_digits(index as nat) } else { "var_"@ + nat_digits(index as nat) }
}

impl Variable {
    /// The name of this variable in Arc.
    pub fn transpile(&self) -> (r: String)
        ensures
            r@ == variable_arc_name(self.index, self._type@),
    {
        let n = u32_to_string(self.index);
        proof { reveal_strlit("class_"); reveal_strlit("var_"); }
        match self._type {
            Types::Compound(_) => concat("class_", n.as_str()),
            _ => concat("var_", n.as_str()),
        }
    }

    /// A copy of this variable.
    pub fn duplicate(&self) -> (r: Variable)
        ensures
            r.index == self.index,
            r.name == self.name,
            r._type@ == self._type@,
            crate::types::keeps_literal_fields(self._type, r._type),
            r.modifiers == self.modifiers,
            r.parameter_id == self.parameter_id,
            r.function_identifier == self.function_identifier,
    {
        Variable {
            index: self.index,
            name: self.name.clone(),
            _type: self._type.duplicate(),
            modifiers: self.modifiers.duplicate(),
            parameter_id: self.parameter_id,
            function_identifier: self.function_identifier,
        }
    }
}

/// Every scope's enclosing scope comes before it in the list.
pub open spec fn scopes_wf(scopes: Seq<VariableScope>) -> bool {
    forall|i: int| 0 <= i < scopes.len() ==> ((#[trigger] scopes[i]).outer matches Some(o) ==> o < i)
}

/// Position of the first variable named `name` in a list of variables.
pub open spec fn first_named(vars: Seq<Variable>, name: Seq<char>) -> Option<int>
    decreases vars.len(),
{
    if vars.len() == 0 {
        None
    } else {
        match first_named(vars.drop_last(), name) {
            Some(k) => Some(k),
            None => if vars.last().name@ == name { Some(vars.len() - 1) } else { None },
        }
    }
}

/// Where a name resolves, searching scope `id` and then the scopes around it: the scope and
/// the position of the variable.
pub open spec fn spec_resolve(scopes: Seq<VariableScope>, id: int, name: Seq<char>) -> Option<(int, int)>
    decreases id,
{
    if !(0 <= id < scopes.len()) {
        None
    } else {
        match first_named(scopes[id].variables@, name) {
            Some(k) => Some((id, k)),
            None => match scopes[id].outer {
                Some(o) => if o < id { spec_resolve(scopes, o as int, name) } else { None },
                None => None,
            },
        }
    }
}

/// Names that start with "__export_" are defined in the scope around the current one.
pub open spec fn is_export_name(name: Seq<char>) -> bool {
    name.len() >= 9 && name.take(9) == "__export_"@
}

/// The scope a definition lands in: the enclosing scope for export names, when there is one.
pub open spec fn spec_define_target(scopes: Seq<VariableScope>, id: int, name: Seq<char>) -> int
    decreases id,
{
    if is_export_name(name) && 0 <= id < scopes.len() && scopes[id].outer is Some
        && (scopes[id].outer->0 as int) < id {
        spec_define_target(scopes, scopes[id].outer->0 as int, name)
    } else {
        id
    }
}

pub proof fn lemma_define_target_bounds(scopes: Seq<VariableScope>, id: int, name: Seq<char>)
    requires
        0 <= id < scopes.len(),
    ensures
        0 <= spec_define_target(scopes, id, name) <= id,
    decreases id,
{
    if is_export_name(name) && scopes[id].outer is Some && (scopes[id].outer->0 as int) < id {
        lemma_define_target_bounds(scopes, scopes[id].outer->0 as int, name);
    }
}

/// The first variable of a name has that name, and none before it does.
pub proof fn lemma_first_named(vars: Seq<Variable>, name: Seq<char>)
    ensures
        first_named(vars, name) matches Some(k) ==> (0 <= k < vars.len() && vars[k].name@ == name
            && forall|j: int| 0 <= j < k ==> (#[trigger] vars[j]).name@ != name),
        first_named(vars, name) is None ==> forall|j: int| 0 <= j < vars.len() ==> (#[trigger] vars[j]).name@ != name,
    decreases vars.len(),
{
    if vars.len() > 0 {
        lemma_first_named(vars.drop_last(), name);
        assert(forall|j: int| 0 <= j < vars.len() - 1 ==> vars.drop_last()[j] == vars[j]);
    }
}

fn find_named(vars: &Vec<Variable>, name: &str) -> (r: Option<usize>)
    ensures
        r matches Some(k) ==> first_named(vars@, name@) == Some(k as int) && k < vars@.len(),
        r is None ==> first_named(vars@, name@) is None,
{
    let mut i: usize = 0;
    while i < vars.len()
        invariant
            i <= vars.len(),
            first_named(vars@.take(i as int), name@) is None,
        decreases vars.len() - i,
    {
        assert(vars@.take(i + 1).drop_last() =~= vars@.take(i as int));
        if crate::text::str_eq(vars[i].name.as_str(), name) {
            proof {
                lemma_first_named_prefix(vars@, name@, i as int + 1);
            }
            return Some(i);
        }
        i = i + 1;
    }
    assert(vars@.take(vars.len() as int) =~= vars@);
    None
}

proof fn lemma_first_named_prefix(vars: Seq<Variable>, name: Seq<char>, n: int)
    requires
        0 <= n <= vars.len(),
        first_named(vars.take(n), name) is Some,
    ensures
        first_named(vars, name) == first_named(vars.take(n), name),
    decreases vars.len() - n,
{
    if n < vars.len() {
        assert(vars.take(n + 1).drop_last() =~= vars.take(n));
        lemma_first_named_prefix(vars, name, n + 1);
    } else {
        assert(vars.take(n) =~= vars);
    }
}

/// Looks a name up in scope `id` and the scopes around it; the result is a copy of the first
/// variable of that name in the innermost scope that has one.
pub fn resolve(scopes: &Vec<VariableScope>, id: usize, name: &str) -> (r: Option<Variable>)
    requires
        scopes_wf(scopes@),
    ensures
        r is Some == spec_resolve(scopes@, id as int, name@) is Some,
        r matches Some(v) ==> ({
            let (s, k) = spec_resolve(scopes@, id as int, name@)->0;
            let w = scopes@[s].variables@[k];
            &&& v.index == w.index
            &&& v.name@ == name@
            &&& v._type@ == w._type@
            &&& crate::types::keeps_literal_fields(w._type, v._type)
            &&& v.modifiers == w.modifiers
            &&& v.parameter_id == w.parameter_id
            &&& v.function_identifier == w.function_identifier
        }),
    decreases id,
{
    if id >= scopes.len() {
        return None;
    }
    match find_named(&scopes[id].variables, name) {
        Some(k) => {
            let w = &scopes[id].variables[k];
            Some(Variable {
                index: w.index,
                name: owned(name),
                _type: w._type.duplicate(),
                modifiers: w.modifiers.duplicate(),
                parameter_id: w.parameter_id,
                function_identifier: w.function_identifier,
            })
        },
        None => match scopes[id].outer {
            Some(o) => {
                if o < id {
                    resolve(scopes, o, name)
                } else {
                    None
                }
            },
            None => None,
        },
    }
}

/// Defines a variable in scope `id` (or, for names starting with "__export_", in the scope
/// around it) and returns a copy of it.
pub fn define(
    scopes: &mut Vec<VariableScope>,
    id: usize,
    index: u32,
    name: String,
    _type: Types,
    modifiers: Modifiers,
    parameter_id: i32,
    function_identifier: i32,
) -> (r: Variable)
    requires
        scopes_wf(old(scopes)@),
        id < old(scopes)@.len(),
    ensures
        scopes_wf(final(scopes)@),
        final(scopes)@.len() == old(scopes)@.len(),
        ({
            let t = spec_define_target(old(scopes)@, id as int, name@);
            &&& final(scopes)@[t].variables@ == old(scopes)@[t].variables@.push(final(scopes)@[t].variables@.last())
            &&& final(scopes)@[t].outer == old(scopes)@[t].outer
            &&& final(scopes)@[t].variables@.last().index == index
            &&& final(scopes)@[t].variables@.last().name == name
            &&& final(scopes)@[t].variables@.last()._type@ == _type@
            &&& final(scopes)@[t].variables@.last().modifiers == modifiers
            &&& final(scopes)@[t].variables@.last().parameter_id == parameter_id
            &&& final(scopes)@[t].variables@.last().function_identifier == function_identifier
            &&& forall|j: int| 0 <= j < old(scopes)@.len() && j != t ==> final(scopes)@[j] == old(scopes)@[j]
        }),
        r.index == index,
        r.name == name,
        r._type@ == _type@,
        r.modifiers == modifiers,
        r.parameter_id == parameter_id,
        r.function_identifier == function_identifier,
    decreases id,
{
    let exported = starts_with(name.as_str(), "__export_");
    proof {
        reveal_strlit("__export_");
    }
    if exported {
        if let Some(o) = scopes[id].outer {
            if o < id {
                return define(scopes, o, index, name, _type, modifiers, parameter_id, function_identifier);
            }
        }
    }
    let copy = Variable {
        index,
        name: name.clone(),
        _type: _type.duplicate(),
        modifiers: modifiers.duplicate(),
        parameter_id,
        function_identifier,
    };
    let v = Variable { index, name, _type, modifiers, parameter_id, function_identifier };
    let mut scope = VariableScope { variables: Vec::new(), outer: None };
    std::mem::swap(&mut scope, &mut scopes[id]);
    scope.variables.push(v);
    std::mem::swap(&mut scope, &mut scopes[id]);
    proof {
        assert(final(scopes)@[id as int].variables@.drop_last() =~= old(scopes)@[id as int].variables@);
    }
    copy
}

/// The position of the variable with this name and index in scope `id` itself (the scopes
/// around it are not searched).
pub fn get_variable_mutable(scopes: &Vec<VariableScope>, id: usize, index: u32, name: &str) -> (r: Option<usize>)
    ensures
        r matches Some(k) ==> id < scopes@.len() && k < scopes@[id as int].variables@.len()
            && scopes@[id as int].variables@[k as int].index == index
            && scopes@[id as int].variables@[k as int].name@ == name@
            && forall|j: int| 0 <= j < k ==> !((#[trigger] scopes@[id as int].variables@[j]).index == index
                && scopes@[id as int].variables@[j].name@ == name@),
        r is None ==> !(id < scopes@.len() && exists|k: int| 0 <= k < scopes@[id as int].variables@.len()
            && (#[trigger] scopes@[id as int].variables@[k]).index == index
            && scopes@[id as int].variables@[k].name@ == name@),
{
    if id >= scopes.len() {
        return None;
    }
    let vars = &scopes[id].variables;
    let mut i: usize = 0;
    while i < vars.len()
        invariant
            i <= vars.len(),
            id < scopes@.len(),
            *vars == scopes@[id as int].variables,
            forall|k: int| 0 <= k < i ==> !((#[trigger] vars@[k]).index == index && vars@[k].name@ == name@),
        decreases vars.len() - i,
    {
        if vars[i].index == index && crate::text::str_eq(vars[i].name.as_str(), name) {
            return Some(i);
        }
        i = i + 1;
    }
    None
}

/// Replaces the type of a variable, given by scope and position.
pub fn set_variable_type(scopes: &mut Vec<VariableScope>, id: usize, k: usize, t: Types)
    requires
        id < old(scopes)@.len(),
        k < old(scopes)@[id as int].variables@.len(),
    ensures
        final(scopes)@.len() == old(scopes)@.len(),
        forall|j: int| 0 <= j < old(scopes)@.len() && j != id ==> final(scopes)@[j] == old(scopes)@[j],
        final(scopes)@[id as int].outer == old(scopes)@[id as int].outer,
        final(scopes)@[id as int].variables@.len() == old(scopes)@[id as int].variables@.len(),
        forall|j: int| 0 <= j < old(scopes)@[id as int].variables@.len() && j != k
            ==> final(scopes)@[id as int].variables@[j] == old(scopes)@[id as int].variables@[j],
        final(scopes)@[id as int].variables@[k as int]._type == t,
        final(scopes)@[id as int].variables@[k as int].index == old(scopes)@[id as int].variables@[k as int].index,
        final(scopes)@[id as int].variables@[k as int].name == old(scopes)@[id as int].variables@[k as int].name,
        final(scopes)@[id as int].variables@[k as int].modifiers == old(scopes)@[id as int].variables@[k as int].modifiers,
{
    let mut scope = VariableScope { variables: Vec::new(), outer: None };
    std::mem::swap(&mut scope, &mut scopes[id]);
    let mut var = Variable {
        index: 0,
        name: String::new(),
        _type: Types::Void,
        modifiers: Modifiers { constant: false, public: false, module: String::new() },
        parameter_id: 0,
        function_identifier: 0,
    };
    std::mem::swap(&mut var, &mut scope.variables[k]);
    var._type = t;
    std::mem::swap(&mut var, &mut scope.variables[k]);
    std::mem::swap(&mut scope, &mut scopes[id]);
}

/// Marks a variable, given by scope and position, public or not.
pub fn set_variable_public(scopes: &mut Vec<VariableScope>, id: usize, k: usize, public: bool)
    requires
        id < old(scopes)@.len(),
        k < old(scopes)@[id as int].variables@.len(),
    ensures
        final(scopes)@.len() == old(scopes)@.len(),
        forall|j: int| 0 <= j < old(scopes)@.len() && j != id ==> final(scopes)@[j] == old(scopes)@[j],
        final(scopes)@[id as int].outer == old(scopes)@[id as int].outer,
        final(scopes)@[id as int].variables@.len() == old(scopes)@[id as int].variables@.len(),
        forall|j: int| 0 <= j < old(scopes)@[id as int].variables@.len() && j != k
            ==> final(scopes)@[id as int].variables@[j] == old(scopes)@[id as int].variables@[j],
        final(scopes)@[id as int].variables@[k as int].modifiers.public == public,
        final(scopes)@[id as int].variables@[k as int].index == old(scopes)@[id as int].variables@[k as int].index,
        final(scopes)@[id as int].variables@[k as int].name == old(scopes)@[id as int].variables@[k as int].name,
        final(scopes)@[id as int].variables@[k as int]._type == old(scopes)@[id as int].variables@[k as int]._type,
{
    let mut scope = VariableScope { variables: Vec::new(), outer: None };
    std::mem::swap(&mut scope, &mut scopes[id]);
    let mut var = Variable {
        index: 0,
        name: String::new(),
        _type: Types::Void,
        modifiers: Modifiers { constant: false, public: false, module: String::new() },
        parameter_id: 0,
        function_identifier: 0,
    };
    std::mem::swap(&mut var, &mut scope.variables[k]);
    var.modifiers.public = public;
    std::mem::swap(&mut var, &mut scope.variables[k]);
    std::mem::swap(&mut scope, &mut scopes[id]);
}

/// Marks the variable at position `k` of scope `id` as constant or not.
pub fn set_variable_constant(scopes: &mut Vec<VariableScope>, id: usize, k: usize, constant: bool)
    requires
        id < old(scopes)@.len(),
        k < old(scopes)@[id as int].variables@.len(),
    ensures
        final(scopes)@.len() == old(scopes)@.len(),
        forall|j: int| 0 <= j < old(scopes)@.len() && j != id ==> final(scopes)@[j] == old(scopes)@[j],
        final(scopes)@[id as int].outer == old(scopes)@[id as int].outer,
        final(scopes)@[id as int].variables@.len() == old(scopes)@[id as int].variables@.len(),
        forall|j: int| 0 <= j < old(scopes)@[id as int].variables@.len() && j != k
            ==> final(scopes)@[id as int].variables@[j] == old(scopes)@[id as int].variables@[j],
        final(scopes)@[id as int].variables@[k as int].modifiers.constant == constant,
        final(scopes)@[id as int].variables@[k as int].modifiers.public == old(scopes)@[id as int].variables@[k as int].modifiers.public,
        final(scopes)@[id as int].variables@[k as int].modifiers.module == old(scopes)@[id as int].variables@[k as int].modifiers.module,
        final(scopes)@[id as int].variables@[k as int].index == old(scopes)@[id as int].variables@[k as int].index,
        final(scopes)@[id as int].variables@[k as int].name == old(scopes)@[id as int].variables@[k as int].name,
        final(scopes)@[id as int].variables@[k as int]._type == old(scopes)@[id as int].variables@[k as int]._type,
{
    let mut scope = VariableScope { variables: Vec::new(), outer: None };
    std::mem::swap(&mut scope, &mut scopes[id]);
    let mut var = Variable {
        index: 0,
        name: String::new(),
        _type: Types::Void,
        modifiers: Modifiers { constant: false, public: false, module: String::new() },
        parameter_id: 0,
        function_identifier: 0,
    };
    std::mem::swap(&mut var, &mut scope.variables[k]);
    var.modifiers.constant = constant;
    std::mem::swap(&mut var, &mut scope.variables[k]);
    std::mem::swap(&mut scope, &mut scopes[id]);
}

/// Adding a scope after the others changes nowhere a name resolves from the earlier ones.
pub proof fn lemma_added_scope_keeps_names(before: Seq<VariableScope>, after: Seq<VariableScope>, id: int, name: Seq<char>)
    requires
        0 <= id < before.len(),
        after.len() == before.len() + 1,
        after.drop_last() == before,
    ensures
        spec_resolve(after, id, name) == spec_resolve(before, id, name),
    decreases id,
{
    assert(after[id] == before[id]);
    match first_named(before[id].variables@, name) {
        Some(_) => {},
        None => match before[id].outer {
            Some(o) => {
                if o < id {
                    lemma_added_scope_keeps_names(before, after, o as int, name);
                }
            },
            None => {},
        },
    }
}

/// Entering a new, empty scope inside scope `id`, names resolve from it as they did from `id`,
/// to the same variables.
pub proof fn law_enter_keeps_names(before: Seq<VariableScope>, after: Seq<VariableScope>, id: usize, name: Seq<char>)
    requires
        id < before.len(),
        after.len() == before.len() + 1,
        after.drop_last() == before,
        after.last().variables@.len() == 0,
        after.last().outer == Some(id),
    ensures
        spec_resolve(after, before.len() as int, name) == spec_resolve(before, id as int, name),
        spec_resolve(before, id as int, name) matches Some((s, k)) ==> 0 <= s < before.len() && after[s] == before[s],
{
    let n = before.len() as int;
    assert(after[n] == after.last());
    assert(first_named(after[n].variables@, name) is None);
    lemma_added_scope_keeps_names(before, after, id as int, name);
    lemma_resolve_bounds(before, id as int, name);
}

/// Where a name resolves is a scope no deeper than the one searched from.
proof fn lemma_resolve_bounds(scopes: Seq<VariableScope>, id: int, name: Seq<char>)
    ensures
        spec_resolve(scopes, id, name) matches Some((s, k)) ==> 0 <= s <= id && s < scopes.len(),
    decreases id,
{
    if 0 <= id < scopes.len() {
        match first_named(scopes[id].variables@, name) {
            Some(_) => {},
            None => match scopes[id].outer {
                Some(o) => {
                    if o < id {
                        lemma_resolve_bounds(scopes, o as int, name);
                    }
                },
                None => {},
            },
        }
    }
}

/// Defining a variable leaves where every other name resolves, and what it resolves to,
/// unchanged.
pub proof fn law_define_keeps_other_names(before: Seq<VariableScope>, after: Seq<VariableScope>, t: int,
    defined: Seq<char>, id: int, name: Seq<char>)
    requires
        name != defined,
        0 <= t < before.len(),
        after.len() == before.len(),
        after[t].variables@ == before[t].variables@.push(after[t].variables@.last()),
        after[t].variables@.last().name@ == defined,
        after[t].outer == before[t].outer,
        forall|j: int| 0 <= j < before.len() && j != t ==> after[j] == before[j],
    ensures
        spec_resolve(after, id, name) == spec_resolve(before, id, name),
        spec_resolve(before, id, name) matches Some((s, k)) ==> after[s].variables@[k] == before[s].variables@[k],
    decreases id,
{
    if 0 <= id < before.len() {
        if id == t {
            let vars = after[t].variables@;
            assert(vars.drop_last() =~= before[t].variables@);
            lemma_first_named(before[t].variables@, name);
        }
        match first_named(before[id].variables@, name) {
            Some(k) => {
                lemma_first_named(before[id].variables@, name);
            },
            None => {
                match before[id].outer {
                    Some(o) => {
                        if o < id {
                            law_define_keeps_other_names(before, after, t, defined, o as int, name);
                        }
                    },
                    None => {},
                }
            },
        }
    }
}

/// A name that is not an export name, defined in a scope that had no variable of that name,
/// resolves from that scope to the new variable.
pub proof fn law_define_then_resolve(before: Seq<VariableScope>, after: Seq<VariableScope>, id: int, name: Seq<char>)
    requires
        0 <= id < before.len(),
        !is_export_name(name),
        first_named(before[id].variables@, name) is None,
        after.len() == before.len(),
        after[id].variables@ == before[id].variables@.push(after[id].variables@.last()),
        after[id].variables@.last().name@ == name,
    ensures
        spec_define_target(before, id, name) == id,
        spec_resolve(after, id, name) == Some((id, before[id].variables@.len() as int)),
{
    let vars = after[id].variables@;
    assert(vars.drop_last() =~= before[id].variables@);
}

} // verus!
