//! Functions a module can hold: user code, or a native callable that the
//! host dispatches by name.

use vstd::prelude::*;
use crate::instruction::{Code, InstrV, code_view};

verus! {

/// One function of a module. A `Native` entry only names the callable: the
/// host performs the actual call.
#[derive(Debug)]
pub enum Function {
    Code { name: String, code: Code },
    Native { name: String },
}

/// The model of a function.
pub enum FunctionV {
    Code { name: Seq<char>, code: Seq<InstrV> },
    Native { name: Seq<char> },
}

impl View for Function {
    type V = FunctionV;

    open spec fn view(&self) -> FunctionV {
        match *self {
            Function::Code { ref name, ref code } => FunctionV::Code {
                name: name@,
                code: code_view(code@),
            },
            Function::Native { ref name } => FunctionV::Native { name: name@ },
        }
    }
}

/// The name a function is registered under.
pub open spec fn fn_name(f: FunctionV) -> Seq<char> {
    match f {
        FunctionV::Code { name, .. } => name,
        FunctionV::Native { name } => name,
    }
}

impl Function {
    /// The name a function is registered under.
    pub fn name(&self) -> (r: &String)
        ensures
            r@ == fn_name(self@),
    {
        match self {
            Function::Code { name, .. } => name,
            Function::Native { name } => name,
        }
    }
}

} // verus!
