//! The static types of Loop values, as the compiler infers and checks them.
use vstd::prelude::*;
use crate::parser::expression::Expression;
use crate::text::{owned, concat};

verus! {

broadcast use vstd::std_specs::vec::group_vec_axioms;

/// The primitive types, and types named by the user.
pub enum BaseTypes {
    Integer,
    Boolean,
    String,
    Float,
    UserDefined(String),
}

/// The type of a function: its result, its parameters, where it was defined and whether it is
/// a method (takes the instance as its first argument).
pub struct FunctionType {
    pub return_type: Box<Types>,
    pub parameter_types: Vec<Types>,
    pub reference: String,
    pub is_method: bool,
}

/// A field of a class type: its name, its position in the instance, its type, and the
/// expression that gives its initial value.
pub struct ClassItemType {
    pub name: String,
    pub index: u32,
    pub class_item_type: Types,
    pub value: Expression,
}

/// A class type: its name and its fields.
pub struct Compound(pub String, pub Vec<ClassItemType>);

pub enum Types {
    Basic(BaseTypes),
    Array(Box<Types>),
    Function(FunctionType),
    Compound(Compound),
    /// An imported Loop module, named by its location.
    Module(String),
    /// An imported native library.
    Library(String),
    Void,
    Auto,
}

/// The model of a class field: its name, position and type.
pub struct ClassItemV {
    pub name: Seq<char>,
    pub index: u32,
    pub item_type: TypesV,
}

/// The mathematical model of a primitive type.
pub enum BaseTypesV {
    Integer,
    Boolean,
    String,
    Float,
    UserDefined(Seq<char>),
}

/// The mathematical model of a type. A class field is modelled by its name, position and type;
/// the expression of its initial value is not part of the model.
pub enum TypesV {
    Basic(BaseTypesV),
    Array(Box<TypesV>),
    Function(Box<TypesV>, Seq<TypesV>, Seq<char>, bool),
    Compound(Seq<char>, Seq<ClassItemV>),
    Module(Seq<char>),
    Library(Seq<char>),
    Void,
    Auto,
}

impl View for BaseTypes {
    type V = BaseTypesV;

    open spec fn view(&self) -> BaseTypesV {
        match self {
            BaseTypes::Integer => BaseTypesV::Integer,
            BaseTypes::Boolean => BaseTypesV::Boolean,
            BaseTypes::String => BaseTypesV::String,
            BaseTypes::Float => BaseTypesV::Float,
            BaseTypes::UserDefined(n) => BaseTypesV::UserDefined(n@),
        }
    }
}

impl View for Types {
    type V = TypesV;

    open spec fn view(&self) -> TypesV
        decreases self,
    {
        match self {
            Types::Basic(b) => TypesV::Basic(b@),
            Types::Array(t) => TypesV::Array(Box::new((**t).view())),
            Types::Function(f) => TypesV::Function(
                Box::new((*f.return_type).view()),
                Seq::new(
                    f.parameter_types@.len(),
                    |i: int|
                        if 0 <= i < f.parameter_types@.len() {
                            f.parameter_types@[i].view()
                        } else {
                            TypesV::Void
                        },
                ),
                f.reference@,
                f.is_method,
            ),
            Types::Compound(c) => TypesV::Compound(
                c.0@,
                Seq::new(
                    c.1@.len(),
                    |i: int|
                        if 0 <= i < c.1@.len() {
                            ClassItemV { name: c.1@[i].name@, index: c.1@[i].index, item_type: c.1@[i].class_item_type.view() }
                        } else {
                            ClassItemV { name: Seq::empty(), index: 0u32, item_type: TypesV::Void }
                        },
                ),
            ),
            Types::Module(m) => TypesV::Module(m@),
            Types::Library(l) => TypesV::Library(l@),
            Types::Void => TypesV::Void,
            Types::Auto => TypesV::Auto,
        }
    }
}

/// The Arc spelling of a primitive type.
pub open spec fn base_name(b: BaseTypesV) -> Seq<char> {
    match b {
        BaseTypesV::Integer => "INT"@,
        BaseTypesV::Boolean => "BOOL"@,
        BaseTypesV::String => "CHAR[]"@,
        BaseTypesV::Float => "FLOAT"@,
        BaseTypesV::UserDefined(n) => n,
    }
}

/// The Arc spelling of a type: primitives by their Arc names, arrays as the element type
/// followed by "[]", classes, modules and libraries by their names.
pub open spec fn arc_type_name(t: TypesV) -> Seq<char>
    decreases t,
{
    match t {
        TypesV::Basic(b) => base_name(b),
        TypesV::Array(e) => arc_type_name(*e) + "[]"@,
        TypesV::Function(_, _, _, _) => "FUNCTION"@,
        TypesV::Compound(n, _) => n,
        TypesV::Module(m) => m,
        TypesV::Library(l) => l,
        TypesV::Void => "VOID"@,
        TypesV::Auto => "AUTO"@,
    }
}

impl BaseTypes {
    pub fn duplicate(&self) -> (r: BaseTypes)
        ensures
            r@ == self@,
    {
        match self {
            BaseTypes::Integer => BaseTypes::Integer,
            BaseTypes::Boolean => BaseTypes::Boolean,
            BaseTypes::String => BaseTypes::String,
            BaseTypes::Float => BaseTypes::Float,
            BaseTypes::UserDefined(n) => BaseTypes::UserDefined(n.clone()),
        }
    }

    pub fn same_as(&self, other: &BaseTypes) -> (r: bool)
        ensures
            r == (self@ == other@),
    {
        match (self, other) {
            (BaseTypes::Integer, BaseTypes::Integer) => true,
            (BaseTypes::Boolean, BaseTypes::Boolean) => true,
            (BaseTypes::String, BaseTypes::String) => true,
            (BaseTypes::Float, BaseTypes::Float) => true,
            (BaseTypes::UserDefined(a), BaseTypes::UserDefined(b)) => crate::text::str_eq(a.as_str(), b.as_str()),
            _ => false,
        }
    }
}

/// The models of a list of types.
pub open spec fn types_seq_view(v: Seq<Types>) -> Seq<TypesV> {
    Seq::new(v.len(), |i: int| v[i]@)
}

/// The models of the fields of a class type.
pub open spec fn items_seq_view(v: Seq<ClassItemType>) -> Seq<ClassItemV> {
    Seq::new(v.len(), |i: int| ClassItemV { name: v[i].name@, index: v[i].index, item_type: v[i].class_item_type@ })
}

/// Whether two lists of types have the same models.
pub fn same_type_lists(a: &Vec<Types>, b: &Vec<Types>) -> (r: bool)
    ensures
        r == (types_seq_view(a@) == types_seq_view(b@)),
    decreases a,
{
    if a.len() != b.len() {
        assert(types_seq_view(a@).len() != types_seq_view(b@).len());
        return false;
    }
    let mut i: usize = 0;
    while i < a.len()
        invariant
            i <= a.len(),
            a.len() == b.len(),
            forall|j: int| 0 <= j < i ==> a@[j]@ == b@[j]@,
        decreases a.len() - i,
    {
        if !a[i].same_as(&b[i]) {
            assert(types_seq_view(a@)[i as int] != types_seq_view(b@)[i as int]);
            return false;
        }
        i = i + 1;
    }
    assert(types_seq_view(a@) =~= types_seq_view(b@));
    true
}

/// Whether two lists of class fields have the same models.
pub fn same_item_lists(a: &Vec<ClassItemType>, b: &Vec<ClassItemType>) -> (r: bool)
    ensures
        r == (items_seq_view(a@) == items_seq_view(b@)),
    decreases a,
{
    if a.len() != b.len() {
        assert(items_seq_view(a@).len() != items_seq_view(b@).len());
        return false;
    }
    let mut i: usize = 0;
    while i < a.len()
        invariant
            i <= a.len(),
            a.len() == b.len(),
            forall|j: int| 0 <= j < i ==> items_seq_view(a@)[j] == items_seq_view(b@)[j],
        decreases a.len() - i,
    {
        let same = crate::text::str_eq(a[i].name.as_str(), b[i].name.as_str())
            && a[i].index == b[i].index
            && a[i].class_item_type.same_as(&b[i].class_item_type);
        if !same {
            assert(items_seq_view(a@)[i as int] != items_seq_view(b@)[i as int]);
            return false;
        }
        i = i + 1;
    }
    assert(items_seq_view(a@) =~= items_seq_view(b@));
    true
}

/// A copy of a list of types.
pub fn duplicate_types(v: &Vec<Types>) -> (r: Vec<Types>)
    ensures
        r@.len() == v@.len(),
        forall|i: int| 0 <= i < v@.len() ==> (#[trigger] r@[i])@ == v@[i]@,
    decreases v,
{
    let mut out: Vec<Types> = Vec::new();
    let mut i: usize = 0;
    while i < v.len()
        invariant
            i <= v.len(),
            out@.len() == i,
            forall|j: int| 0 <= j < i ==> (#[trigger] out@[j])@ == v@[j]@,
        decreases v.len() - i,
    {
        out.push(v[i].duplicate());
        i = i + 1;
    }
    out
}

/// A copy of the fields of a class type.
pub fn duplicate_items(v: &Vec<ClassItemType>) -> (r: Vec<ClassItemType>)
    ensures
        r@.len() == v@.len(),
        forall|i: int| 0 <= i < v@.len() ==> (#[trigger] r@[i]).name@ == v@[i].name@
            && r@[i].index == v@[i].index && r@[i].class_item_type@ == v@[i].class_item_type@
            && (literal_value(v@[i].value) ==> r@[i].value == v@[i].value),
    decreases v,
{
    let mut out: Vec<ClassItemType> = Vec::new();
    let mut i: usize = 0;
    while i < v.len()
        invariant
            i <= v.len(),
            out@.len() == i,
            forall|j: int| 0 <= j < i ==> (#[trigger] out@[j]).name@ == v@[j].name@
                && out@[j].index == v@[j].index && out@[j].class_item_type@ == v@[j].class_item_type@
                && (literal_value(v@[j].value) ==> out@[j].value == v@[j].value),
        decreases v.len() - i,
    {
        out.push(v[i].duplicate());
        i = i + 1;
    }
    out
}

impl ClassItemType {
    pub fn duplicate(&self) -> (r: ClassItemType)
        ensures
            r.name@ == self.name@,
            r.index == self.index,
            r.class_item_type@ == self.class_item_type@,
            literal_value(self.value) ==> r.value == self.value,
        decreases self,
    {
        ClassItemType {
            name: self.name.clone(),
            index: self.index,
            class_item_type: self.class_item_type.duplicate(),
            value: self.value.duplicate(),
        }
    }
}

impl FunctionType {
    pub fn duplicate(&self) -> (r: FunctionType)
        ensures
            Types::Function(r)@ == Types::Function(*self)@,
        decreases self,
    {
        let params = duplicate_types(&self.parameter_types);
        let r = FunctionType {
            return_type: Box::new(self.return_type.duplicate()),
            parameter_types: params,
            reference: self.reference.clone(),
            is_method: self.is_method,
        };
        assert(Types::Function(r)@->Function_1 =~= Types::Function(*self)@->Function_1);
        r
    }
}

/// Whether `b` is a copy of the type `a` that, for a class, keeps each field's name and each
/// literal initial value.
pub open spec fn keeps_literal_fields(a: Types, b: Types) -> bool {
    &&& b@ == a@
    &&& a is Compound ==> b is Compound && b->Compound_0.1@.len() == a->Compound_0.1@.len()
        && forall|i: int| 0 <= i < a->Compound_0.1@.len() ==> (#[trigger] b->Compound_0.1@[i]).name@ == a->Compound_0.1@[i].name@
            && (literal_value(a->Compound_0.1@[i].value) ==> b->Compound_0.1@[i].value == a->Compound_0.1@[i].value)
}

/// Whether an expression is a literal: a number, a string, a boolean or `null`.
pub open spec fn literal_value(e: Expression) -> bool {
    e is Integer || e is Float || e is String || e is Boolean || e is Null
}

impl Compound {
    pub fn duplicate(&self) -> (r: Compound)
        ensures
            Types::Compound(r)@ == Types::Compound(*self)@,
            r.1@.len() == self.1@.len(),
            forall|i: int| 0 <= i < self.1@.len() ==> (#[trigger] r.1@[i]).name@ == self.1@[i].name@
                && (literal_value(self.1@[i].value) ==> r.1@[i].value == self.1@[i].value),
        decreases self,
    {
        let items = duplicate_items(&self.1);
        let r = Compound(self.0.clone(), items);
        assert(Types::Compound(r)@->Compound_1 =~= Types::Compound(*self)@->Compound_1);
        r
    }
}

impl Types {
    /// A copy of this type.
    pub fn duplicate(&self) -> (r: Types)
        ensures
            r@ == self@,
            keeps_literal_fields(*self, r),
        decreases self,
    {
        match self {
            Types::Basic(b) => Types::Basic(b.duplicate()),
            Types::Array(t) => Types::Array(Box::new(t.duplicate())),
            Types::Function(f) => Types::Function(f.duplicate()),
            Types::Compound(c) => Types::Compound(c.duplicate()),
            Types::Module(m) => Types::Module(m.clone()),
            Types::Library(l) => Types::Library(l.clone()),
            Types::Void => Types::Void,
            Types::Auto => Types::Auto,
        }
    }

    /// The Arc spelling of this type.
    pub fn transpile(&self) -> (r: String)
        ensures
            r@ == arc_type_name(self@),
        decreases self,
    {
        match self {
            Types::Basic(BaseTypes::Integer) => owned("INT"),
            Types::Basic(BaseTypes::Boolean) => owned("BOOL"),
            Types::Basic(BaseTypes::String) => owned("CHAR[]"),
            Types::Basic(BaseTypes::Float) => owned("FLOAT"),
            Types::Basic(BaseTypes::UserDefined(n)) => n.clone(),
            Types::Array(t) => {
                let inner = t.transpile();
                concat(inner.as_str(), "[]")
            },
            Types::Function(_) => owned("FUNCTION"),
            Types::Compound(c) => c.0.clone(),
            Types::Module(m) => m.clone(),
            Types::Library(l) => l.clone(),
            Types::Void => owned("VOID"),
            Types::Auto => owned("AUTO"),
        }
    }

    /// Whether two types are the same (compared by their models).
    pub fn same_as(&self, other: &Types) -> (r: bool)
        ensures
            r == (self@ == other@),
        decreases self,
    {
        match (self, other) {
            (Types::Basic(a), Types::Basic(b)) => a.same_as(b),
            (Types::Array(a), Types::Array(b)) => {
                let r = a.same_as(b);
                assert(r == (self@ == other@));
                r
            },
            (Types::Function(a), Types::Function(b)) => {
                let r = a.return_type.same_as(&b.return_type) && a.is_method == b.is_method
                    && crate::text::str_eq(a.reference.as_str(), b.reference.as_str())
                    && same_type_lists(&a.parameter_types, &b.parameter_types);
                assert(self@->Function_1 == types_seq_view(a.parameter_types@));
                assert(other@->Function_1 == types_seq_view(b.parameter_types@));
                r
            },
            (Types::Compound(a), Types::Compound(b)) => {
                let r = crate::text::str_eq(a.0.as_str(), b.0.as_str()) && same_item_lists(&a.1, &b.1);
                
                
                
                assert(self@->Compound_1 =~= items_seq_view(a.1@));
                assert(other@->Compound_1 =~= items_seq_view(b.1@));
                r
            },
            (Types::Module(a), Types::Module(b)) => crate::text::str_eq(a.as_str(), b.as_str()),
            (Types::Library(a), Types::Library(b)) => crate::text::str_eq(a.as_str(), b.as_str()),
            (Types::Void, Types::Void) => true,
            (Types::Auto, Types::Auto) => true,
            _ => false,
        }
    }

    /// Whether this is `Types::Auto`.
    pub fn is_auto(&self) -> (r: bool)
        ensures
            r == (self@ == TypesV::Auto),
    {
        match self {
            Types::Auto => true,
            _ => false,
        }
    }
}

} // verus!
