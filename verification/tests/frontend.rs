use stackvm::dymodule::DyModule;
use stackvm::host::{FloatUnit, Host};
use stackvm::value::Value;
use stackvm::virtual_machine::VirtualMachine;
use stackvm::function::Function;
use stackvm::instruction::Instruction;
use stackvm::loader::{split_program, LoadError, VERSION_MAJOR, VERSION_MINOR, VERSION_PATCH};
use stackvm::module::Module;
use stackvm::parser::{Parser, ParseError};
use stackvm::sexpr::SExpr;

#[test]
fn test_parser_next_token() {
    let mut parser = Parser::new(" test(fn add);Hello\nfield.get\"Test\"");

    assert_eq!(parser.next_token(), Some("test".to_string()));
    assert_eq!(parser.next_token(), Some("(".to_string()));
    assert_eq!(parser.next_token(), Some("fn".to_string()));
    assert_eq!(parser.next_token(), Some("add".to_string()));
    assert_eq!(parser.next_token(), Some(")".to_string()));
    assert_eq!(parser.next_token(), Some("field.get".to_string()));
    assert_eq!(parser.next_token(), Some("Test".to_string()));
}

#[test]
fn parser_reads_nested_lists() {
    let mut parser = Parser::new("(mod m (fn f)) (hi)");
    let exprs = parser.parse().expect("parse failed");
    assert_eq!(exprs.len(), 2);
    match &exprs[0] {
        SExpr::List(items) => {
            assert_eq!(items.len(), 3);
            assert!(matches!(&items[0], SExpr::Atom(a) if a == "mod"));
            assert!(matches!(&items[1], SExpr::Atom(a) if a == "m"));
            match &items[2] {
                SExpr::List(inner) => {
                    assert_eq!(inner.len(), 2);
                    assert!(matches!(&inner[0], SExpr::Atom(a) if a == "fn"));
                    assert!(matches!(&inner[1], SExpr::Atom(a) if a == "f"));
                },
                _ => panic!("expected a nested list"),
            }
        },
        _ => panic!("expected a list"),
    }
    match &exprs[1] {
        SExpr::List(items) => {
            assert_eq!(items.len(), 1);
            assert!(matches!(&items[0], SExpr::Atom(a) if a == "hi"));
        },
        _ => panic!("expected a list"),
    }
}

#[test]
fn parser_rejects_unclosed_list_and_stray_atom() {
    let mut parser = Parser::new("(a (b)");
    assert!(matches!(parser.parse(), Err(ParseError::UnexpectedEnd)));

    let mut parser = Parser::new("loose");
    assert!(matches!(parser.parse(), Err(ParseError::UnexpectedToken)));
}

fn header() -> Instruction {
    Instruction::Version { major: VERSION_MAJOR, minor: VERSION_MINOR, patch: VERSION_PATCH }
}

#[test]
fn split_builds_modules_and_registries_in_order() {
    let program = vec![
        header(),
        Instruction::Module {
            name: "m".to_string(),
            code: vec![
                Instruction::Fn { name: "f".to_string(), code: vec![Instruction::Return] },
                Instruction::Fn { name: "g".to_string(), code: vec![] },
            ],
        },
        Instruction::LoadModule {
            name: "lib".to_string(),
            code: vec![
                Instruction::GetFunction { name: "sym".to_string(), alias: None },
                Instruction::GetFunction {
                    name: "raw".to_string(),
                    alias: Some("nice".to_string()),
                },
            ],
        },
    ];
    let (mods, dys): (Vec<Module>, Vec<DyModule>) = split_program(program).expect("split failed");
    assert_eq!(mods.len(), 1);
    assert_eq!(mods[0].name, "m");
    assert_eq!(mods[0].functions.len(), 2);
    assert!(matches!(mods[0].get_function("f"), Some(Function::Code { .. })));
    assert!(matches!(mods[0].get_function("g"), Some(Function::Code { .. })));
    assert!(mods[0].get_function("h").is_none());
    assert_eq!(dys.len(), 1);
    assert_eq!(dys[0].name, "lib");
    assert_eq!(dys[0].imports.len(), 2);
    assert_eq!(dys[0].imports[0].symbol, "sym");
    assert_eq!(dys[0].imports[0].bound, "sym");
    assert_eq!(dys[0].imports[1].symbol, "raw");
    assert_eq!(dys[0].imports[1].bound, "nice");
}

#[test]
fn split_rejects_malformed_programs() {
    assert!(matches!(split_program(vec![]), Err(LoadError::MissingVersion)));
    assert!(matches!(
        split_program(vec![header(), Instruction::Hi]),
        Err(LoadError::NotAModule)
    ));
    assert!(matches!(
        split_program(vec![
            header(),
            Instruction::Module { name: "m".to_string(), code: vec![Instruction::Hi] },
        ]),
        Err(LoadError::NotAFunction)
    ));
    assert!(matches!(
        split_program(vec![
            header(),
            Instruction::LoadModule { name: "l".to_string(), code: vec![Instruction::Hi] },
        ]),
        Err(LoadError::NotAnImport)
    ));
    assert!(matches!(
        split_program(vec![Instruction::Version {
            major: VERSION_MAJOR,
            minor: VERSION_MINOR,
            patch: VERSION_PATCH.wrapping_add(1),
        }]),
        Err(LoadError::WrongVersion)
    ));
}

struct NoFloats;

impl FloatUnit for NoFloats {
    fn from_decimal(&self, _t: &str) -> Option<u32> {
        None
    }
    fn add(&self, a: u32, _b: u32) -> u32 {
        a
    }
    fn sub(&self, a: u32, _b: u32) -> u32 {
        a
    }
    fn mul(&self, a: u32, _b: u32) -> u32 {
        a
    }
    fn div(&self, a: u32, _b: u32) -> u32 {
        a
    }
    fn inc(&self, a: u32) -> u32 {
        a
    }
    fn dec(&self, a: u32) -> u32 {
        a
    }
    fn eq(&self, _a: u32, _b: u32) -> bool {
        false
    }
    fn lt(&self, _a: u32, _b: u32) -> bool {
        false
    }
    fn le(&self, _a: u32, _b: u32) -> bool {
        false
    }
    fn gt(&self, _a: u32, _b: u32) -> bool {
        false
    }
    fn ge(&self, _a: u32, _b: u32) -> bool {
        false
    }
}

struct NoNatives;

impl Host for NoNatives {
    fn call_native(
        &mut self,
        _module: &str,
        _function: &str,
        _args: Vec<Value>,
    ) -> Option<Value> {
        None
    }
}

#[test]
fn split_then_run_executes_a_loaded_function() {
    let program = vec![
        header(),
        Instruction::Module {
            name: "m".to_string(),
            code: vec![Instruction::Fn {
                name: "f".to_string(),
                code: vec![
                    Instruction::PushConstInteger { value: 2 },
                    Instruction::PushConstInteger { value: 3 },
                    Instruction::Add,
                    Instruction::Return,
                ],
            }],
        },
    ];
    let (mods, dys) = split_program(program).expect("split failed");
    let mut vm = VirtualMachine::new();
    for m in mods {
        vm.add_module(m);
    }
    for d in dys {
        vm.add_dynamic_module(d);
    }
    vm.call("m", "f", vec![], &mut NoNatives, &NoFloats, 1000).expect("call failed");
    assert!(matches!(vm.state.stack[0], Value::Integer(5)));
}
