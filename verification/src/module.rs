//! Static modules: named collections of functions. Registration keeps every
//! entry and lookup takes the latest, so a re-registered name shadows the
//! older entry.

use vstd::prelude::*;
use crate::function::{Function, FunctionV, fn_name};
use crate::instruction::Code;

verus! {

/// A named mapping from function name to function.
#[derive(Debug)]
pub struct Module {
    pub name: String,
    pub functions: Vec<Function>,
}

/// The model of a module.
pub struct ModuleV {
    pub name: Seq<char>,
    pub functions: Seq<FunctionV>,
}

impl View for Module {
    type V = ModuleV;

    open spec fn view(&self) -> ModuleV {
        ModuleV { name: self.name@, functions: self.functions@.map_values(|f: Function| f@) }
    }
}

/// The latest function registered under `name`, if any.
pub open spec fn find_fn(fns: Seq<FunctionV>, name: Seq<char>) -> Option<FunctionV>
    decreases fns.len(),
{
    if fns.len() == 0 {
        None
    } else if fn_name(fns.last()) == name {
        Some(fns.last())
    } else {
        find_fn(fns.drop_last(), name)
    }
}

impl Module {
    pub fn new(name: String) -> (r: Module)
        ensures
            r@.name == name@,
            r@.functions == Seq::<FunctionV>::empty(),
    {
        let r = Module { name, functions: Vec::new() };
        proof {
            assert(r@.functions =~= Seq::<FunctionV>::empty());
        }
        r
    }

    /// Registers a user-code function under `name`.
    pub fn add_function(&mut self, name: String, code: Code)
        ensures
            final(self)@.name == old(self)@.name,
            final(self)@.functions == old(self)@.functions.push(
                (Function::Code { name, code })@,
            ),
    {
        let func = Function::Code { name, code };
        let ghost fv = func@;
        self.functions.push(func);
        proof {
            assert(self@.functions =~= old(self)@.functions.push(fv));
        }
    }

    /// Registers a native function slot under `name`; the host supplies the
    /// callable at run time.
    pub fn add_native_function(&mut self, name: &str)
        ensures
            final(self)@.name == old(self)@.name,
            final(self)@.functions == old(self)@.functions.push(
                FunctionV::Native { name: name@ },
            ),
    {
        let func = Function::Native { name: String::from_str(name) };
        let ghost fv = func@;
        self.functions.push(func);
        proof {
            assert(self@.functions =~= old(self)@.functions.push(fv));
        }
    }

    /// Looks a function up by name.
    pub fn get_function(&self, name: &str) -> (r: Option<&Function>)
        ensures
            match r {
                Some(f) => find_fn(self@.functions, name@) == Some(f@),
                None => find_fn(self@.functions, name@) is None,
            },
    {
        let n = self.functions.len();
        let mut i: usize = n;
        proof {
            assert(self@.functions.subrange(0, n as int) =~= self@.functions);
        }
        while i > 0
            invariant
                i <= n,
                n == self.functions@.len(),
                find_fn(self@.functions, name@) == find_fn(
                    self@.functions.subrange(0, i as int),
                    name@,
                ),
            decreases i,
        {
            i = i - 1;
            let ghost pre = self@.functions.subrange(0, i + 1);
            proof {
                assert(pre.last() == self@.functions[i as int]);
                assert(pre.drop_last() =~= self@.functions.subrange(0, i as int));
            }
            if string_eq(self.functions[i].name(), name) {
                return Some(&self.functions[i]);
            }
        }
        proof {
            assert(self@.functions.subrange(0, 0) =~= Seq::<FunctionV>::empty());
        }
        None
    }
}

/// Compares a registered name against a query.
pub fn string_eq(a: &String, b: &str) -> (r: bool)
    ensures
        r == (a@ == b@),
{
    let b_owned = String::from_str(b);
    *a == b_owned
}

} // verus!
