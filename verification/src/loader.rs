//! The loader's version gate: a program's first instruction must be a
//! `Version` header that matches the host's version exactly — major, minor
//! and patch, with no compatibility range.

use vstd::prelude::*;
use crate::dymodule::{DyImport, DyImportV, DyModule, DyModuleV};
use crate::function::FunctionV;
use crate::instruction::{Instruction, Code, InstrV, code_view, inst_view, lemma_code_view};
use crate::module::{Module, ModuleV};

verus! {

pub const VERSION_MAJOR: u8 = 0;

pub const VERSION_MINOR: u8 = 1;

pub const VERSION_PATCH: u8 = 0;

/// Why a program was refused at load time.
#[derive(Debug, Clone, Copy, PartialEq, Eq, Structural)]
pub enum LoadError {
    /// The program is empty or does not begin with a version header.
    MissingVersion,
    /// The header's version differs from the host's.
    WrongVersion,
    /// A top-level instruction after the header is neither a module nor a
    /// dynamic-module declaration.
    NotAModule,
    /// A static module body holds something other than a function.
    NotAFunction,
    /// A dynamic module body holds something other than a function import.
    NotAnImport,
}

/// Whether a header triple is exactly the host's version.
pub open spec fn version_matches(major: u8, minor: u8, patch: u8) -> bool {
    major == VERSION_MAJOR && minor == VERSION_MINOR && patch == VERSION_PATCH
}

/// The version gate: accepts a program exactly when its first instruction is
/// a `Version` header equal to the host's version.
pub fn check_version(code: &Code) -> (r: Result<(), LoadError>)
    ensures
        ({
            let cv = code_view(code@);
            if cv.len() == 0 {
                r == Err::<(), LoadError>(LoadError::MissingVersion)
            } else {
                match cv[0] {
                    InstrV::Version { major, minor, patch } => {
                        if version_matches(major, minor, patch) {
                            r is Ok
                        } else {
                            r == Err::<(), LoadError>(LoadError::WrongVersion)
                        }
                    },
                    _ => r == Err::<(), LoadError>(LoadError::MissingVersion),
                }
            }
        }),
{
    proof {
        lemma_code_view(code@);
    }
    if code.len() == 0 {
        return Err(LoadError::MissingVersion);
    }
    match &code[0] {
        Instruction::Version { major, minor, patch } => {
            if *major == VERSION_MAJOR && *minor == VERSION_MINOR && *patch == VERSION_PATCH {
                Ok(())
            } else {
                Err(LoadError::WrongVersion)
            }
        },
        _ => Err(LoadError::MissingVersion),
    }
}

/// A static module body as functions, if every child is a `Fn`.
pub open spec fn child_fns(ms: Seq<InstrV>) -> Option<Seq<FunctionV>>
    decreases ms.len(),
{
    if ms.len() == 0 {
        Some(Seq::empty())
    } else {
        match ms[0] {
            InstrV::Fn { name, code } => match child_fns(ms.drop_first()) {
                Option::Some(rest) => Some(seq![FunctionV::Code { name, code }] + rest),
                Option::None => None,
            },
            _ => None,
        }
    }
}

/// A dynamic module body as symbol bindings, if every child is a
/// `GetFunction`; the bound name is the alias where one was given.
pub open spec fn child_imports(ms: Seq<InstrV>) -> Option<Seq<DyImportV>>
    decreases ms.len(),
{
    if ms.len() == 0 {
        Some(Seq::empty())
    } else {
        match ms[0] {
            InstrV::GetFunction { name, alias } => match child_imports(ms.drop_first()) {
                Option::Some(rest) => Some(
                    seq![
                        (
                            name,
                            match alias {
                                Option::Some(a) => a,
                                Option::None => name,
                            },
                        ),
                    ] + rest,
                ),
                Option::None => None,
            },
            _ => None,
        }
    }
}

/// The instructions after the header, split into static modules and dynamic
/// module registries, in order.
pub open spec fn split_rest(ms: Seq<InstrV>) -> Result<
    (Seq<ModuleV>, Seq<DyModuleV>),
    LoadError,
>
    decreases ms.len(),
{
    if ms.len() == 0 {
        Ok((Seq::empty(), Seq::empty()))
    } else {
        match ms[0] {
            InstrV::Module { name, code } => match child_fns(code) {
                Option::None => Err(LoadError::NotAFunction),
                Option::Some(fs) => match split_rest(ms.drop_first()) {
                    Err(e) => Err(e),
                    Ok((mods, dys)) => Ok(
                        (seq![ModuleV { name, functions: fs }] + mods, dys),
                    ),
                },
            },
            InstrV::LoadModule { name, code } => match child_imports(code) {
                Option::None => Err(LoadError::NotAnImport),
                Option::Some(imps) => match split_rest(ms.drop_first()) {
                    Err(e) => Err(e),
                    Ok((mods, dys)) => Ok(
                        (mods, seq![DyModuleV { name, imports: imps }] + dys),
                    ),
                },
            },
            _ => Err(LoadError::NotAModule),
        }
    }
}

/// A whole program: the version gate, then the split.
pub open spec fn split_spec(ms: Seq<InstrV>) -> Result<
    (Seq<ModuleV>, Seq<DyModuleV>),
    LoadError,
> {
    if ms.len() == 0 {
        Err(LoadError::MissingVersion)
    } else {
        match ms[0] {
            InstrV::Version { major, minor, patch } => {
                if version_matches(major, minor, patch) {
                    split_rest(ms.drop_first())
                } else {
                    Err(LoadError::WrongVersion)
                }
            },
            _ => Err(LoadError::MissingVersion),
        }
    }
}

/// Builds a static module from its declaration's body, which must hold only
/// function definitions.
fn build_module(name: String, body_in: Code) -> (r: Result<Module, LoadError>)
    ensures
        ({
            match child_fns(code_view(body_in@)) {
                Option::Some(fs) => r matches Ok(m) && m@ == (ModuleV {
                    name: name@,
                    functions: fs,
                }),
                Option::None => r == Err::<Module, LoadError>(LoadError::NotAFunction),
            }
        }),
{
    let ghost bv0 = code_view(body_in@);
    let mut body = body_in;
    let mut m = Module::new(name);
    proof {
        if child_fns(bv0) is Some {
            assert(m@.functions + child_fns(bv0)->Some_0 =~= child_fns(bv0)->Some_0);
        }
    }
    while body.len() > 0
        invariant
            bv0 == code_view(body_in@),
            m@.name == name@,
            ({
                match child_fns(code_view(body@)) {
                    Option::Some(rest) => child_fns(bv0) matches Some(all) && all == m@.functions
                        + rest,
                    Option::None => child_fns(bv0) is None,
                }
            }),
        decreases body@.len(),
    {
        let ghost pre_body = body@;
        let ghost pre = code_view(pre_body);
        proof {
            lemma_code_view(pre_body);
        }
        let inst = body.remove(0);
        proof {
            assert(inst_view(inst) == pre[0]);
            assert(body@ =~= pre_body.drop_first());
            assert(pre.drop_first() =~= code_view(body@));
        }
        match inst {
            Instruction::Fn { name: fname, code } => {
                let ghost fv = FunctionV::Code { name: fname@, code: code_view(code@) };
                m.add_function(fname, code);
                proof {
                    if child_fns(code_view(body@)) is Some {
                        let rest = child_fns(code_view(body@))->Some_0;
                        assert((m@.functions.drop_last() + (seq![fv] + rest)) =~= (
                        m@.functions.drop_last().push(fv) + rest));
                    }
                }
            },
            _ => {
                return Err(LoadError::NotAFunction);
            },
        }
    }
    proof {
        lemma_code_view(body@);
        assert(child_fns(code_view(body@)) == Some(Seq::<FunctionV>::empty()));
        if child_fns(bv0) is Some {
            assert(m@.functions + Seq::<FunctionV>::empty() =~= m@.functions);
        }
    }
    Ok(m)
}

/// Builds a dynamic module registry from its declaration's body, which must
/// hold only function imports.
fn build_dymodule(name: String, body_in: Code) -> (r: Result<DyModule, LoadError>)
    ensures
        ({
            match child_imports(code_view(body_in@)) {
                Option::Some(imps) => r matches Ok(m) && m@ == (DyModuleV {
                    name: name@,
                    imports: imps,
                }),
                Option::None => r == Err::<DyModule, LoadError>(LoadError::NotAnImport),
            }
        }),
{
    let ghost bv0 = code_view(body_in@);
    let mut body = body_in;
    let mut m = DyModule { name, imports: Vec::new() };
    proof {
        assert(m@.imports =~= Seq::<DyImportV>::empty());
        if child_imports(bv0) is Some {
            assert(m@.imports + child_imports(bv0)->Some_0 =~= child_imports(bv0)->Some_0);
        }
    }
    while body.len() > 0
        invariant
            bv0 == code_view(body_in@),
            m@.name == name@,
            ({
                match child_imports(code_view(body@)) {
                    Option::Some(rest) => child_imports(bv0) matches Some(all) && all
                        == m@.imports + rest,
                    Option::None => child_imports(bv0) is None,
                }
            }),
        decreases body@.len(),
    {
        let ghost pre_body = body@;
        let ghost pre = code_view(pre_body);
        proof {
            lemma_code_view(pre_body);
        }
        let inst = body.remove(0);
        proof {
            assert(inst_view(inst) == pre[0]);
            assert(body@ =~= pre_body.drop_first());
            assert(pre.drop_first() =~= code_view(body@));
        }
        match inst {
            Instruction::GetFunction { name: symbol, alias } => {
                let bound = match &alias {
                    Some(a) => a.clone(),
                    None => symbol.clone(),
                };
                let ghost iv = (symbol@, bound@);
                m.imports.push(DyImport { symbol, bound });
                proof {
                    assert(m@.imports =~= m@.imports.drop_last().push(iv));
                    if child_imports(code_view(body@)) is Some {
                        let rest = child_imports(code_view(body@))->Some_0;
                        assert((m@.imports.drop_last() + (seq![iv] + rest)) =~= (
                        m@.imports.drop_last().push(iv) + rest));
                    }
                }
            },
            _ => {
                return Err(LoadError::NotAnImport);
            },
        }
    }
    proof {
        lemma_code_view(body@);
        assert(child_imports(code_view(body@)) == Some(Seq::<DyImportV>::empty()));
        if child_imports(bv0) is Some {
            assert(m@.imports + Seq::<DyImportV>::empty() =~= m@.imports);
        }
    }
    Ok(m)
}

/// Splits a loaded program: after the version gate, one static module per
/// `Module` declaration and one dynamic-module registry per `LoadModule`
/// declaration, in program order; anything else is refused. Opening the
/// libraries a registry names is host work.
pub fn split_program(program: Code) -> (r: Result<(Vec<Module>, Vec<DyModule>), LoadError>)
    ensures
        ({
            match split_spec(code_view(program@)) {
                Ok((ms, ds)) => r matches Ok((mods, dys)) && mods@.map_values(|m: Module| m@)
                    == ms && dys@.map_values(|d: DyModule| d@) == ds,
                Err(e) => r == Err::<(Vec<Module>, Vec<DyModule>), LoadError>(e),
            }
        }),
{
    let ghost cv0 = code_view(program@);
    let mut code = program;
    match check_version(&code) {
        Ok(()) => {},
        Err(e) => {
            return Err(e);
        },
    }
    proof {
        lemma_code_view(code@);
    }
    let _version = code.remove(0);
    proof {
        assert(code_view(code@) =~= cv0.drop_first());
    }
    let ghost rv0 = code_view(code@);
    let mut mods: Vec<Module> = Vec::new();
    let mut dys: Vec<DyModule> = Vec::new();
    proof {
        if split_rest(rv0) is Ok {
            let (ms, ds) = split_rest(rv0)->Ok_0;
            assert(mods@.map_values(|m: Module| m@) + ms =~= ms);
            assert(dys@.map_values(|d: DyModule| d@) + ds =~= ds);
        }
    }
    while code.len() > 0
        invariant
            cv0 == code_view(program@),
            rv0 == cv0.drop_first(),
            cv0.len() > 0,
            cv0[0] matches InstrV::Version { major, minor, patch } && version_matches(
                major,
                minor,
                patch,
            ),
            ({
                match split_rest(code_view(code@)) {
                    Ok((ms, ds)) => split_rest(rv0) matches Ok(all) && all.0 == mods@.map_values(
                        |m: Module| m@,
                    ) + ms && all.1 == dys@.map_values(|d: DyModule| d@) + ds,
                    Err(e) => split_rest(rv0) == Err::<(Seq<ModuleV>, Seq<DyModuleV>), LoadError>(
                        e,
                    ),
                }
            }),
        decreases code@.len(),
    {
        let ghost pre_code = code@;
        let ghost pre = code_view(pre_code);
        proof {
            lemma_code_view(pre_code);
        }
        let inst = code.remove(0);
        proof {
            assert(inst_view(inst) == pre[0]);
            assert(code@ =~= pre_code.drop_first());
            assert(pre.drop_first() =~= code_view(code@));
        }
        match inst {
            Instruction::Module { name, code: body } => {
                match build_module(name, body) {
                    Ok(m) => {
                        let ghost mv = m@;
                        mods.push(m);
                        proof {
                            assert(mods@.map_values(|m: Module| m@) =~= mods@.map_values(
                                |m: Module| m@,
                            ).drop_last().push(mv));
                            if split_rest(code_view(code@)) is Ok {
                                let (ms, ds) = split_rest(code_view(code@))->Ok_0;
                                assert((mods@.map_values(|m: Module| m@).drop_last() + (seq![mv]
                                    + ms)) =~= (mods@.map_values(|m: Module| m@).drop_last().push(
                                    mv,
                                ) + ms));
                            }
                        }
                    },
                    Err(e) => {
                        return Err(e);
                    },
                }
            },
            Instruction::LoadModule { name, code: body } => {
                match build_dymodule(name, body) {
                    Ok(d) => {
                        let ghost dv = d@;
                        dys.push(d);
                        proof {
                            assert(dys@.map_values(|d: DyModule| d@) =~= dys@.map_values(
                                |d: DyModule| d@,
                            ).drop_last().push(dv));
                            if split_rest(code_view(code@)) is Ok {
                                let (ms, ds) = split_rest(code_view(code@))->Ok_0;
                                assert((dys@.map_values(|d: DyModule| d@).drop_last() + (seq![dv]
                                    + ds)) =~= (dys@.map_values(|d: DyModule| d@).drop_last().push(
                                    dv,
                                ) + ds));
                            }
                        }
                    },
                    Err(e) => {
                        return Err(e);
                    },
                }
            },
            _ => {
                return Err(LoadError::NotAModule);
            },
        }
    }
    proof {
        lemma_code_view(code@);
        assert(split_rest(code_view(code@)) == Ok::<(Seq<ModuleV>, Seq<DyModuleV>), LoadError>(
            (Seq::empty(), Seq::empty()),
        ));
        if split_rest(rv0) is Ok {
            let (ms, ds) = split_rest(rv0)->Ok_0;
            assert(mods@.map_values(|m: Module| m@) + Seq::<ModuleV>::empty() =~= mods@.map_values(
                |m: Module| m@,
            ));
            assert(dys@.map_values(|d: DyModule| d@) + Seq::<DyModuleV>::empty()
                =~= dys@.map_values(|d: DyModule| d@));
        }
    }
    Ok((mods, dys))
}

} // verus!
