//! Modifiers of a variable, such as `const` and `pub`.
use vstd::prelude::*;

verus! {

pub struct Modifiers {
    /// Whether the variable is constant (default: mutable).
    pub constant: bool,
    pub public: bool,
    /// The module (location) the variable belongs to.
    pub module: String,
}

impl Modifiers {
    /// Modifiers with the given flags and module.
    pub fn new(constant: bool, module: String, public: bool) -> (r: Modifiers)
        ensures
            r.constant == constant,
            r.module == module,
            r.public == public,
    {
        Modifiers { constant, module, public }
    }

    pub fn duplicate(&self) -> (r: Modifiers)
        ensures
            r == *self,
    {
        Modifiers { constant: self.constant, public: self.public, module: self.module.clone() }
    }
}

} // verus!
