//! Dynamic modules: the loader's record of a shared library and the symbols
//! a program binds from it. Opening the library and resolving the symbols is
//! host work; the machine only keeps the registry and dispatches calls by
//! bound name.

use vstd::prelude::*;

verus! {

/// One symbol binding: the library symbol to resolve, and the name the
/// program calls it by (the alias if one was given, else the symbol itself).
#[derive(Debug)]
pub struct DyImport {
    pub symbol: String,
    pub bound: String,
}

/// The registry of one dynamic module: the library name and its bindings.
#[derive(Debug)]
pub struct DyModule {
    pub name: String,
    pub imports: Vec<DyImport>,
}

/// The model of a symbol binding: symbol, then bound name.
pub type DyImportV = (Seq<char>, Seq<char>);

/// The model of a dynamic module.
pub struct DyModuleV {
    pub name: Seq<char>,
    pub imports: Seq<DyImportV>,
}

impl View for DyImport {
    type V = DyImportV;

    open spec fn view(&self) -> DyImportV {
        (self.symbol@, self.bound@)
    }
}

impl View for DyModule {
    type V = DyModuleV;

    open spec fn view(&self) -> DyModuleV {
        DyModuleV { name: self.name@, imports: self.imports@.map_values(|i: DyImport| i@) }
    }
}

/// Whether a bound name is among a dynamic module's imports.
pub open spec fn has_import(imports: Seq<DyImportV>, bound: Seq<char>) -> bool {
    exists|i: int| 0 <= i < imports.len() && imports[i].1 == bound
}

impl DyModule {
    /// Whether the program bound a function under this name.
    pub fn has_bound(&self, name: &str) -> (r: bool)
        ensures
            r == has_import(self@.imports, name@),
    {
        let n = self.imports.len();
        let mut i: usize = 0;
        while i < n
            invariant
                i <= n,
                n == self.imports@.len(),
                forall|j: int| 0 <= j < i ==> self@.imports[j].1 != name@,
            decreases n - i,
        {
            if crate::module::string_eq(&self.imports[i].bound, name) {
                proof {
                    assert(self@.imports[i as int].1 == name@);
                }
                return true;
            }
            i = i + 1;
        }
        false
    }
}

} // verus!
