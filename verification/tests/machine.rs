use stackvm::host::{FloatUnit, Host};
use stackvm::loader::{check_version, LoadError, VERSION_MAJOR, VERSION_MINOR, VERSION_PATCH};
use stackvm::instruction::Instruction;
use stackvm::module::Module;
use stackvm::value::Value;
use stackvm::virtual_machine::{VirtualMachine, VmError};

/// The machine's floats are IEEE-754 bit patterns; this unit computes with
/// the host's `f32`.
struct Ieee;

impl FloatUnit for Ieee {
    fn from_decimal(&self, text: &str) -> Option<u32> {
        text.parse::<f32>().ok().map(f32::to_bits)
    }
    fn add(&self, a: u32, b: u32) -> u32 {
        (f32::from_bits(a) + f32::from_bits(b)).to_bits()
    }
    fn sub(&self, a: u32, b: u32) -> u32 {
        (f32::from_bits(a) - f32::from_bits(b)).to_bits()
    }
    fn mul(&self, a: u32, b: u32) -> u32 {
        (f32::from_bits(a) * f32::from_bits(b)).to_bits()
    }
    fn div(&self, a: u32, b: u32) -> u32 {
        (f32::from_bits(a) / f32::from_bits(b)).to_bits()
    }
    fn inc(&self, a: u32) -> u32 {
        (f32::from_bits(a) + 1.0).to_bits()
    }
    fn dec(&self, a: u32) -> u32 {
        (f32::from_bits(a) - 1.0).to_bits()
    }
    fn eq(&self, a: u32, b: u32) -> bool {
        f32::from_bits(a) == f32::from_bits(b)
    }
    fn lt(&self, a: u32, b: u32) -> bool {
        f32::from_bits(a) < f32::from_bits(b)
    }
    fn le(&self, a: u32, b: u32) -> bool {
        f32::from_bits(a) <= f32::from_bits(b)
    }
    fn gt(&self, a: u32, b: u32) -> bool {
        f32::from_bits(a) > f32::from_bits(b)
    }
    fn ge(&self, a: u32, b: u32) -> bool {
        f32::from_bits(a) >= f32::from_bits(b)
    }
}

/// A host with no native functions.
struct NoNatives;

impl Host for NoNatives {
    fn call_native(&mut self, _module: &str, _function: &str, _args: Vec<Value>) -> Option<Value> {
        None
    }
}

/// A host whose single native function returns the answer.
struct Answering;

impl Host for Answering {
    fn call_native(&mut self, _module: &str, _function: &str, _args: Vec<Value>) -> Option<Value> {
        Some(Value::Integer(42))
    }
}

const FUEL: u64 = 10_000;

fn run(vm: &mut VirtualMachine, code: Vec<Instruction>) {
    vm.execute(&code, &mut NoNatives, &Ieee, FUEL).expect("execution failed");
}

#[test]
fn calling_a_code_function_leaves_its_result() {
    // (mod "m" (fn "f" (i32.const 2) (i32.const 3) (op.add) (return)))
    let mut m = Module::new("m".to_string());
    m.add_function(
        "f".to_string(),
        vec![
            Instruction::PushConstInteger { value: 2 },
            Instruction::PushConstInteger { value: 3 },
            Instruction::Add,
            Instruction::Return,
        ],
    );
    let mut vm = VirtualMachine::new();
    vm.add_module(m);
    assert!(vm.has_function("m", "f"));
    assert!(!vm.has_function("m", "g"));
    assert!(!vm.has_function("n", "f"));
    vm.call("m", "f", vec![], &mut NoNatives, &Ieee, FUEL).expect("call failed");
    assert_eq!(vm.state.stack.len(), 1);
    assert!(matches!(vm.state.stack[0], Value::Integer(5)));
}

#[test]
fn subtraction_is_below_minus_top() {
    // (i32.const 10) (i32.const 3) (op.sub) yields Integer(7)
    let mut vm = VirtualMachine::new();
    run(
        &mut vm,
        vec![
            Instruction::PushConstInteger { value: 10 },
            Instruction::PushConstInteger { value: 3 },
            Instruction::Sub,
        ],
    );
    assert!(matches!(vm.state.stack[0], Value::Integer(7)));
}

#[test]
fn division_order_and_division_by_zero() {
    let mut vm = VirtualMachine::new();
    run(
        &mut vm,
        vec![
            Instruction::PushConstInteger { value: 10 },
            Instruction::PushConstInteger { value: 2 },
            Instruction::Div,
        ],
    );
    assert!(matches!(vm.state.stack[0], Value::Integer(5)));

    let mut vm = VirtualMachine::new();
    let r = vm.execute(
        &vec![
            Instruction::PushConstInteger { value: 1 },
            Instruction::PushConstInteger { value: 0 },
            Instruction::Div,
        ],
        &mut NoNatives,
        &Ieee,
        FUEL,
    );
    assert_eq!(r, Err(VmError::DivideByZero));
}

#[test]
fn string_concatenation_is_below_then_top() {
    // (str.const "foo") (str.const "bar") (op.add) yields String("foobar")
    let mut vm = VirtualMachine::new();
    run(
        &mut vm,
        vec![
            Instruction::PushConstString { value: "foo".to_string() },
            Instruction::PushConstString { value: "bar".to_string() },
            Instruction::Add,
        ],
    );
    match &vm.state.stack[0] {
        Value::String(s) => assert_eq!(s, "foobar"),
        other => panic!("expected a string, got {:?}", other),
    }
}

#[test]
fn comparison_is_below_against_top() {
    // (i32.const 10) (i32.const 3) (cmp.lt) is 10 < 3
    let mut vm = VirtualMachine::new();
    run(
        &mut vm,
        vec![
            Instruction::PushConstInteger { value: 10 },
            Instruction::PushConstInteger { value: 3 },
            Instruction::Lt,
        ],
    );
    assert!(matches!(vm.state.stack[0], Value::Boolean(false)));
}

#[test]
fn field_writes_are_visible_through_every_handle() {
    // (alloc 2) (dup) (i32.const 7) (field.set 0): reading field 0 through
    // the original and the duplicated handle both yield Integer(7).
    let mut vm = VirtualMachine::new();
    run(
        &mut vm,
        vec![
            Instruction::Allocate { fields: 2 },
            Instruction::Dup,
            Instruction::PushConstInteger { value: 7 },
            Instruction::SetField { index: 0 },
            Instruction::GetField { index: 0 },
        ],
    );
    assert_eq!(vm.state.stack.len(), 2);
    assert!(matches!(vm.state.stack[1], Value::Integer(7)));
    run(&mut vm, vec![Instruction::Pop, Instruction::GetField { index: 0 }]);
    assert!(matches!(vm.state.stack[0], Value::Integer(7)));
}

#[test]
fn object_fields_hold_what_was_set() {
    // (alloc 3) (dup) (i32.const 42) (field.set 1) (field.get 1)
    let mut vm = VirtualMachine::new();
    run(
        &mut vm,
        vec![
            Instruction::Allocate { fields: 3 },
            Instruction::Dup,
            Instruction::PushConstInteger { value: 42 },
            Instruction::SetField { index: 1 },
            Instruction::GetField { index: 1 },
        ],
    );
    assert_eq!(vm.state.stack.len(), 2);
    assert!(matches!(vm.state.stack[1], Value::Integer(42)));
}

#[test]
fn conditional_with_return_picks_the_then_arm() {
    // (bool.const true) (then (i32.const 1) (return) else (i32.const 2) (return))
    let mut vm = VirtualMachine::new();
    run(
        &mut vm,
        vec![
            Instruction::PushConstBoolean { value: true },
            Instruction::Then {
                then_block: vec![
                    Instruction::PushConstInteger { value: 1 },
                    Instruction::Return,
                ],
                else_block: vec![
                    Instruction::PushConstInteger { value: 2 },
                    Instruction::Return,
                ],
            },
        ],
    );
    assert_eq!(vm.state.stack.len(), 1);
    assert!(matches!(vm.state.stack[0], Value::Integer(1)));
}

#[test]
fn loop_with_counter_stops_at_ten() {
    // reserve 1 local, store 0, then loop until the counter reaches 10;
    // the function hands the final counter back on the stack.
    let body = vec![
        Instruction::ReserveLocal { size: 1 },
        Instruction::PushConstInteger { value: 0 },
        Instruction::SetLocal { index: 0 },
        Instruction::Loop {
            block: vec![
                Instruction::GetLocal { index: 0 },
                Instruction::PushConstInteger { value: 10 },
                Instruction::Ge,
                Instruction::Then {
                    then_block: vec![Instruction::Break],
                    else_block: vec![
                        Instruction::GetLocal { index: 0 },
                        Instruction::Inc,
                        Instruction::SetLocal { index: 0 },
                    ],
                },
            ],
        },
        Instruction::GetLocal { index: 0 },
        Instruction::Return,
    ];
    let mut m = Module::new("m".to_string());
    m.add_function("count".to_string(), body);
    let mut vm = VirtualMachine::new();
    vm.add_module(m);
    vm.call("m", "count", vec![], &mut NoNatives, &Ieee, FUEL).expect("call failed");
    assert_eq!(vm.state.stack.len(), 1);
    assert!(matches!(vm.state.stack[0], Value::Integer(10)));
}

#[test]
fn first_argument_is_local_zero_and_callee_locals_stay_private() {
    // The callee doubles its first argument; the caller's own frame is
    // untouched afterwards.
    let mut m = Module::new("m".to_string());
    m.add_function(
        "double".to_string(),
        vec![
            Instruction::GetLocal { index: 0 },
            Instruction::GetLocal { index: 0 },
            Instruction::Add,
            Instruction::Return,
        ],
    );
    let mut vm = VirtualMachine::new();
    vm.add_module(m);
    vm.call("m", "double", vec![Value::Integer(21)], &mut NoNatives, &Ieee, FUEL)
        .expect("call failed");
    assert!(matches!(vm.state.stack[0], Value::Integer(42)));
    assert_eq!(vm.state.local_vars.len(), 0);
}

#[test]
fn return_exits_function_and_break_exits_loop_only() {
    // A return inside a loop inside the callee exits the whole function;
    // a break inside a conditional inside a loop exits only the loop.
    let mut m = Module::new("m".to_string());
    m.add_function(
        "via_loop".to_string(),
        vec![
            Instruction::Loop {
                block: vec![
                    Instruction::PushConstInteger { value: 9 },
                    Instruction::Return,
                ],
            },
            // Never reached: return propagated out of the loop.
            Instruction::PushConstInteger { value: 1 },
        ],
    );
    m.add_function(
        "via_break".to_string(),
        vec![
            Instruction::Loop {
                block: vec![
                    Instruction::PushConstBoolean { value: true },
                    Instruction::Then {
                        then_block: vec![Instruction::Break],
                        else_block: vec![],
                    },
                ],
            },
            // Reached: break ended the loop, not the function.
            Instruction::PushConstInteger { value: 8 },
        ],
    );
    let mut vm = VirtualMachine::new();
    vm.add_module(m);
    vm.call("m", "via_loop", vec![], &mut NoNatives, &Ieee, FUEL).expect("call failed");
    assert!(matches!(vm.state.stack[0], Value::Integer(9)));
    vm.call("m", "via_break", vec![], &mut NoNatives, &Ieee, FUEL).expect("call failed");
    assert!(matches!(vm.state.stack[1], Value::Integer(8)));
}

#[test]
fn native_functions_answer_through_the_host() {
    let mut m = Module::new("m".to_string());
    m.add_native_function("test");
    let mut vm = VirtualMachine::new();
    vm.add_module(m);
    assert!(vm.has_function("m", "test"));
    vm.call("m", "test", vec![], &mut Answering, &Ieee, FUEL).expect("call failed");
    assert!(matches!(vm.state.stack[0], Value::Integer(42)));
}

#[test]
fn float_arithmetic_goes_through_the_unit() {
    let mut vm = VirtualMachine::new();
    run(
        &mut vm,
        vec![
            Instruction::PushConstFloat { bits: 1.5f32.to_bits() },
            Instruction::PushConstFloat { bits: 2.25f32.to_bits() },
            Instruction::Add,
        ],
    );
    match vm.state.stack[0] {
        Value::Float(bits) => assert_eq!(f32::from_bits(bits), 3.75),
        _ => panic!("expected a float"),
    }
}

#[test]
fn unknown_module_and_runaway_loops_are_errors() {
    let mut vm = VirtualMachine::new();
    let r = vm.call("nowhere", "f", vec![], &mut NoNatives, &Ieee, FUEL);
    assert_eq!(r, Err(VmError::UnknownModule));

    let mut vm = VirtualMachine::new();
    let r = vm.execute(
        &vec![Instruction::Loop { block: vec![] }],
        &mut NoNatives,
        &Ieee,
        1000,
    );
    assert_eq!(r, Err(VmError::OutOfFuel));
}

#[test]
fn version_gate_accepts_only_the_host_version() {
    let good = vec![Instruction::Version {
        major: VERSION_MAJOR,
        minor: VERSION_MINOR,
        patch: VERSION_PATCH,
    }];
    assert!(check_version(&good).is_ok());

    let stale = vec![Instruction::Version {
        major: VERSION_MAJOR,
        minor: VERSION_MINOR,
        patch: VERSION_PATCH + 1,
    }];
    assert!(matches!(check_version(&stale), Err(LoadError::WrongVersion)));

    let headless = vec![Instruction::Hi];
    assert!(matches!(check_version(&headless), Err(LoadError::MissingVersion)));
    assert!(matches!(check_version(&vec![]), Err(LoadError::MissingVersion)));
}
