//! The execution engine: operand stack, per-call locals frames, a heap of
//! field objects, module registries, and structured control flow carried by
//! three transient flags.
//!
//! Execution is metered: every guest call and every loop iteration costs one
//! unit of fuel, so a run either completes, fails with a runtime error, or
//! stops with `OutOfFuel`. All other behavior is untouched by the meter.

use vstd::prelude::*;
use crate::dymodule::{DyModule, DyModuleV, has_import};
use crate::function::{Function, FunctionV};
use crate::host::{FloatUnit, Host};
use crate::instruction::{
    Instruction,
    Code,
    InstrV,
    inst_view,
    code_view,
    inst_size,
    code_size,
    lemma_code_view,
    lemma_code_size_index,
    lemma_inst_size_min,
};
use crate::module::{Module, ModuleV, find_fn, string_eq};
use crate::value::{Value, ValueV, Object, ObjectV, vals_view, dup_values};

verus! {

/// A runtime failure; execution stops and reports it.
#[derive(Debug, Clone, Copy, PartialEq, Eq, Structural)]
pub enum VmError {
    /// An instruction needed more operands than the stack holds.
    StackUnderflow,
    /// An operation was applied to values outside its type rules.
    TypeMismatch,
    /// Integer division by zero, or the one overflowing quotient.
    DivideByZero,
    /// A locals instruction ran with no frame on the frame stack.
    NoFrame,
    /// A locals index outside the current frame.
    LocalOutOfRange,
    /// A field index outside the object's slots.
    FieldOutOfRange,
    /// A field instruction found a value that is not an object handle.
    NotAnObject,
    /// A field instruction found a native cell instead of value slots.
    NotAValuesObject,
    /// An object handle that points outside the heap; only a native
    /// function can produce one.
    InvalidHandle,
    /// `Call` named a module that is not registered.
    UnknownModule,
    /// `Call` named a function its module does not have.
    UnknownFunction,
    /// A declaration instruction reached the interpreter.
    DeclarationAtRuntime,
    /// The fuel budget ran out.
    OutOfFuel,
}

/// A diagnostic record that the `Dump` and `Hi` instructions emit; the host
/// renders them.
#[derive(Debug)]
pub enum VmEvent {
    Dump { stack: Vec<Value>, locals: Vec<Vec<Value>> },
    Greeting,
}

/// The machine's mutable state: everything execution touches.
#[derive(Debug)]
pub struct VmState {
    pub stack: Vec<Value>,
    pub local_vars: Vec<Vec<Value>>,
    pub heap: Vec<Object>,
    pub events: Vec<VmEvent>,
    pub call_break: bool,
    pub call_continue: bool,
    pub call_return: bool,
}

/// A virtual machine: mutable state plus the module registries.
#[derive(Debug)]
pub struct VirtualMachine {
    pub state: VmState,
    pub modules: Vec<Module>,
    pub dymodules: Vec<DyModule>,
}

impl VmState {
    /// The operand stack, as values.
    pub open spec fn stack_view(&self) -> Seq<ValueV> {
        vals_view(self.stack@)
    }

    /// The locals frames, as rows of values.
    pub open spec fn frames_view(&self) -> Seq<Seq<ValueV>> {
        self.local_vars@.map_values(|f: Vec<Value>| vals_view(f@))
    }

    /// The heap, as cells.
    pub open spec fn heap_view(&self) -> Seq<ObjectV> {
        self.heap@.map_values(|o: Object| o@)
    }
}

/// Two heap cells of the same kind and, for value cells, the same length:
/// what execution preserves of every pre-existing cell.
pub open spec fn shape_eq(a: ObjectV, b: ObjectV) -> bool {
    match (a, b) {
        (ObjectV::Values(x), ObjectV::Values(y)) => x.len() == y.len(),
        (ObjectV::Native(t), ObjectV::Native(u)) => t == u,
        _ => false,
    }
}

/// At most one of the three control-flow flags is raised.
pub open spec fn flags_ok(st: VmState) -> bool {
    &&& !(st.call_break && st.call_continue)
    &&& !(st.call_break && st.call_return)
    &&& !(st.call_continue && st.call_return)
}

/// The stack effect of an instruction whose effect is statically known;
/// `None` for control flow, calls and declarations.
pub open spec fn straight_eff(m: InstrV) -> Option<int> {
    match m {
        InstrV::Nop => Some(0int),
        InstrV::Version { .. } => Some(0int),
        InstrV::Dump => Some(0int),
        InstrV::Hi => Some(0int),
        InstrV::PushConstString { .. } => Some(1int),
        InstrV::PushConstInteger { .. } => Some(1int),
        InstrV::PushConstFloat { .. } => Some(1int),
        InstrV::PushConstBoolean { .. } => Some(1int),
        InstrV::GetLocal { .. } => Some(1int),
        InstrV::SetLocal { .. } => Some(-1int),
        InstrV::ReserveLocal { .. } => Some(0int),
        InstrV::Allocate { .. } => Some(1int),
        InstrV::GetField { .. } => Some(0int),
        InstrV::SetField { .. } => Some(-1int),
        InstrV::Dup => Some(1int),
        InstrV::Add => Some(-1int),
        InstrV::Sub => Some(-1int),
        InstrV::Mul => Some(-1int),
        InstrV::Div => Some(-1int),
        InstrV::Inc => Some(0int),
        InstrV::Dec => Some(0int),
        InstrV::Eq => Some(-1int),
        InstrV::Ne => Some(-1int),
        InstrV::Lt => Some(-1int),
        InstrV::Le => Some(-1int),
        InstrV::Gt => Some(-1int),
        InstrV::Ge => Some(-1int),
        InstrV::Pop => Some(-1int),
        _ => None,
    }
}

/// Every instruction of the sequence has a statically known stack effect.
pub open spec fn straightline(ms: Seq<InstrV>) -> bool {
    forall|i: int| 0 <= i < ms.len() ==> (#[trigger] straight_eff(ms[i])) is Some
}

/// The sum of the sequence's stack effects.
pub open spec fn eff_sum(ms: Seq<InstrV>) -> int
    decreases ms.len(),
{
    if ms.len() == 0 {
        0
    } else {
        (match straight_eff(ms[0]) {
            Some(e) => e,
            None => 0,
        }) + eff_sum(ms.drop_first())
    }
}

/// `eff_sum` of one more instruction at the end.
proof fn lemma_eff_sum_push(ms: Seq<InstrV>, m: InstrV)
    ensures
        eff_sum(ms.push(m)) == eff_sum(ms) + (match straight_eff(m) {
            Some(e) => e,
            None => 0int,
        }),
    decreases ms.len(),
{
    if ms.len() == 0 {
        assert(ms.push(m).drop_first() =~= Seq::<InstrV>::empty());
        assert(eff_sum(Seq::<InstrV>::empty()) == 0);
        assert(ms.push(m)[0] == m);
        assert(eff_sum(ms.push(m)) == (match straight_eff(m) {
            Some(e) => e,
            None => 0int,
        }) + eff_sum(Seq::<InstrV>::empty()));
    } else {
        lemma_eff_sum_push(ms.drop_first(), m);
        assert(ms.push(m).drop_first() =~= ms.drop_first().push(m));
        assert(ms.push(m)[0] == ms[0]);
    }
}

/// The latest module registered under `name`, if any.
pub open spec fn find_mod(ms: Seq<ModuleV>, name: Seq<char>) -> Option<ModuleV>
    decreases ms.len(),
{
    if ms.len() == 0 {
        None
    } else if ms.last().name == name {
        Some(ms.last())
    } else {
        find_mod(ms.drop_last(), name)
    }
}

/// The latest dynamic module registered under `name`, if any.
pub open spec fn find_dymod(ms: Seq<DyModuleV>, name: Seq<char>) -> Option<DyModuleV>
    decreases ms.len(),
{
    if ms.len() == 0 {
        None
    } else if ms.last().name == name {
        Some(ms.last())
    } else {
        find_dymod(ms.drop_last(), name)
    }
}

/// Looks a static module up by name, latest registration first.
fn lookup_module<'a>(modules: &'a Vec<Module>, name: &str) -> (r: Option<&'a Module>)
    ensures
        match r {
            Some(m) => find_mod(modules@.map_values(|m: Module| m@), name@) == Some(m@),
            None => find_mod(modules@.map_values(|m: Module| m@), name@) is None,
        },
{
    let ghost mv = modules@.map_values(|m: Module| m@);
    let n = modules.len();
    let mut i: usize = n;
    proof {
        assert(mv.subrange(0, n as int) =~= mv);
    }
    while i > 0
        invariant
            i <= n,
            n == modules@.len(),
            mv == modules@.map_values(|m: Module| m@),
            find_mod(mv, name@) == find_mod(mv.subrange(0, i as int), name@),
        decreases i,
    {
        i = i - 1;
        let ghost pre = mv.subrange(0, i + 1);
        proof {
            assert(pre.last() == mv[i as int]);
            assert(pre.drop_last() =~= mv.subrange(0, i as int));
        }
        if string_eq(&modules[i].name, name) {
            return Some(&modules[i]);
        }
    }
    proof {
        assert(mv.subrange(0, 0) =~= Seq::<ModuleV>::empty());
    }
    None
}

/// Looks a dynamic module up by name, latest registration first.
fn lookup_dymodule<'a>(dymodules: &'a Vec<DyModule>, name: &str) -> (r: Option<&'a DyModule>)
    ensures
        match r {
            Some(m) => find_dymod(dymodules@.map_values(|m: DyModule| m@), name@) == Some(m@),
            None => find_dymod(dymodules@.map_values(|m: DyModule| m@), name@) is None,
        },
{
    let ghost mv = dymodules@.map_values(|m: DyModule| m@);
    let n = dymodules.len();
    let mut i: usize = n;
    proof {
        assert(mv.subrange(0, n as int) =~= mv);
    }
    while i > 0
        invariant
            i <= n,
            n == dymodules@.len(),
            mv == dymodules@.map_values(|m: DyModule| m@),
            find_dymod(mv, name@) == find_dymod(mv.subrange(0, i as int), name@),
        decreases i,
    {
        i = i - 1;
        let ghost pre = mv.subrange(0, i + 1);
        proof {
            assert(pre.last() == mv[i as int]);
            assert(pre.drop_last() =~= mv.subrange(0, i as int));
        }
        if string_eq(&dymodules[i].name, name) {
            return Some(&dymodules[i]);
        }
    }
    proof {
        assert(mv.subrange(0, 0) =~= Seq::<DyModuleV>::empty());
    }
    None
}

/// Adds `b` to `a` (`b` was below `a` on the stack). Integers wrap, floats go
/// to the host's unit, strings concatenate below-then-top; anything else
/// breaks the type rules.
fn apply_add<F: FloatUnit>(fpu: &F, b: Value, a: Value) -> (r: Result<Value, VmError>)
    ensures
        match (b@, a@) {
            (ValueV::Int(x), ValueV::Int(y)) => r matches Ok(v) && v@ == ValueV::Int(
                vstd::wrapping::i32_specs::wrapping_add(x, y),
            ),
            (ValueV::Float(_), ValueV::Float(_)) => r matches Ok(v) && v@ is Float,
            (ValueV::Str(x), ValueV::Str(y)) => r matches Ok(v) && v@ == ValueV::Str(x + y),
            _ => r == Err::<Value, VmError>(VmError::TypeMismatch),
        },
{
    match (b, a) {
        (Value::Integer(x), Value::Integer(y)) => Ok(Value::Integer(x.wrapping_add(y))),
        (Value::Float(x), Value::Float(y)) => Ok(Value::Float(fpu.add(x, y))),
        (Value::String(x), Value::String(y)) => Ok(Value::String(x.concat(y.as_str()))),
        _ => Err(VmError::TypeMismatch),
    }
}

/// Subtracts the top `a` from `b` below it.
fn apply_sub<F: FloatUnit>(fpu: &F, b: Value, a: Value) -> (r: Result<Value, VmError>)
    ensures
        match (b@, a@) {
            (ValueV::Int(x), ValueV::Int(y)) => r matches Ok(v) && v@ == ValueV::Int(
                vstd::wrapping::i32_specs::wrapping_sub(x, y),
            ),
            (ValueV::Float(_), ValueV::Float(_)) => r matches Ok(v) && v@ is Float,
            _ => r == Err::<Value, VmError>(VmError::TypeMismatch),
        },
{
    match (b, a) {
        (Value::Integer(x), Value::Integer(y)) => Ok(Value::Integer(x.wrapping_sub(y))),
        (Value::Float(x), Value::Float(y)) => Ok(Value::Float(fpu.sub(x, y))),
        _ => Err(VmError::TypeMismatch),
    }
}

/// Multiplies `b` by the top `a`.
fn apply_mul<F: FloatUnit>(fpu: &F, b: Value, a: Value) -> (r: Result<Value, VmError>)
    ensures
        match (b@, a@) {
            (ValueV::Int(x), ValueV::Int(y)) => r matches Ok(v) && v@ == ValueV::Int(
                vstd::wrapping::i32_specs::wrapping_mul(x, y),
            ),
            (ValueV::Float(_), ValueV::Float(_)) => r matches Ok(v) && v@ is Float,
            _ => r == Err::<Value, VmError>(VmError::TypeMismatch),
        },
{
    match (b, a) {
        (Value::Integer(x), Value::Integer(y)) => Ok(Value::Integer(x.wrapping_mul(y))),
        (Value::Float(x), Value::Float(y)) => Ok(Value::Float(fpu.mul(x, y))),
        _ => Err(VmError::TypeMismatch),
    }
}

/// Divides `b` by the top `a`; a zero divisor, or the one overflowing
/// quotient, is an error.
fn apply_div<F: FloatUnit>(fpu: &F, b: Value, a: Value) -> (r: Result<Value, VmError>)
    ensures
        match (b@, a@) {
            (ValueV::Int(x), ValueV::Int(y)) => match x.checked_div(y) {
                Some(q) => r matches Ok(v) && v@ == ValueV::Int(q),
                None => r == Err::<Value, VmError>(VmError::DivideByZero),
            },
            (ValueV::Float(_), ValueV::Float(_)) => r matches Ok(v) && v@ is Float,
            _ => r == Err::<Value, VmError>(VmError::TypeMismatch),
        },
{
    match (b, a) {
        (Value::Integer(x), Value::Integer(y)) => match x.checked_div(y) {
            Some(q) => Ok(Value::Integer(q)),
            None => Err(VmError::DivideByZero),
        },
        (Value::Float(x), Value::Float(y)) => Ok(Value::Float(fpu.div(x, y))),
        _ => Err(VmError::TypeMismatch),
    }
}

/// Adds or subtracts one on a numeric value; `up` picks the direction.
fn apply_step<F: FloatUnit>(fpu: &F, a: Value, up: bool) -> (r: Result<Value, VmError>)
    ensures
        match a@ {
            ValueV::Int(x) => r matches Ok(v) && v@ == ValueV::Int(
                if up {
                    vstd::wrapping::i32_specs::wrapping_add(x, 1)
                } else {
                    vstd::wrapping::i32_specs::wrapping_sub(x, 1)
                },
            ),
            ValueV::Float(_) => r matches Ok(v) && v@ is Float,
            _ => r == Err::<Value, VmError>(VmError::TypeMismatch),
        },
{
    match a {
        Value::Integer(x) => Ok(
            Value::Integer(
                if up {
                    x.wrapping_add(1)
                } else {
                    x.wrapping_sub(1)
                },
            ),
        ),
        Value::Float(x) => Ok(
            Value::Float(
                if up {
                    fpu.inc(x)
                } else {
                    fpu.dec(x)
                },
            ),
        ),
        _ => Err(VmError::TypeMismatch),
    }
}

/// Equality of two values of the same scalar type; `want_eq` false flips it
/// into inequality. Objects and mixed types break the type rules.
fn apply_eq<F: FloatUnit>(fpu: &F, b: Value, a: Value, want_eq: bool) -> (r: Result<
    Value,
    VmError,
>)
    ensures
        match (b@, a@) {
            (ValueV::Int(x), ValueV::Int(y)) => r == Ok::<Value, VmError>(
                Value::Boolean((x == y) == want_eq),
            ),
            (ValueV::Str(x), ValueV::Str(y)) => r == Ok::<Value, VmError>(
                Value::Boolean((x == y) == want_eq),
            ),
            (ValueV::Bool(x), ValueV::Bool(y)) => r == Ok::<Value, VmError>(
                Value::Boolean((x == y) == want_eq),
            ),
            (ValueV::Float(_), ValueV::Float(_)) => r matches Ok(v) && v@ is Bool,
            _ => r == Err::<Value, VmError>(VmError::TypeMismatch),
        },
{
    match (b, a) {
        (Value::Integer(x), Value::Integer(y)) => Ok(Value::Boolean((x == y) == want_eq)),
        (Value::String(x), Value::String(y)) => Ok(Value::Boolean((x == y) == want_eq)),
        (Value::Boolean(x), Value::Boolean(y)) => Ok(Value::Boolean((x == y) == want_eq)),
        (Value::Float(x), Value::Float(y)) => Ok(Value::Boolean(fpu.eq(x, y) == want_eq)),
        _ => Err(VmError::TypeMismatch),
    }
}

/// Which ordering a comparison instruction asks for.
#[derive(Debug, Clone, Copy, PartialEq, Eq, Structural)]
pub enum OrderOp {
    Lt,
    Le,
    Gt,
    Ge,
}

/// The ordering `b OP a` on two integers.
pub open spec fn int_order(op: OrderOp, x: i32, y: i32) -> bool {
    match op {
        OrderOp::Lt => x < y,
        OrderOp::Le => x <= y,
        OrderOp::Gt => x > y,
        OrderOp::Ge => x >= y,
    }
}

/// Orders `b` below against the top `a`: the result is `b OP a`.
fn apply_order<F: FloatUnit>(fpu: &F, b: Value, a: Value, op: OrderOp) -> (r: Result<
    Value,
    VmError,
>)
    ensures
        match (b@, a@) {
            (ValueV::Int(x), ValueV::Int(y)) => r == Ok::<Value, VmError>(
                Value::Boolean(int_order(op, x, y)),
            ),
            (ValueV::Float(_), ValueV::Float(_)) => r matches Ok(v) && v@ is Bool,
            _ => r == Err::<Value, VmError>(VmError::TypeMismatch),
        },
{
    match (b, a) {
        (Value::Integer(x), Value::Integer(y)) => Ok(
            Value::Boolean(
                match op {
                    OrderOp::Lt => x < y,
                    OrderOp::Le => x <= y,
                    OrderOp::Gt => x > y,
                    OrderOp::Ge => x >= y,
                },
            ),
        ),
        (Value::Float(x), Value::Float(y)) => Ok(
            Value::Boolean(
                match op {
                    OrderOp::Lt => fpu.lt(x, y),
                    OrderOp::Le => fpu.le(x, y),
                    OrderOp::Gt => fpu.gt(x, y),
                    OrderOp::Ge => fpu.ge(x, y),
                },
            ),
        ),
        _ => Err(VmError::TypeMismatch),
    }
}



/// Which binary operation an arithmetic or comparison instruction performs.
#[derive(Debug, Clone, Copy, PartialEq, Eq, Structural)]
pub enum BinOp {
    Add,
    Sub,
    Mul,
    Div,
    Eq,
    Ne,
    Lt,
    Le,
    Gt,
    Ge,
}

impl VmState {
    /// Pushes a value.
    fn push_val(&mut self, v: Value)
        ensures
            final(self).stack_view() == old(self).stack_view().push(v@),
            final(self).local_vars == old(self).local_vars,
            final(self).heap == old(self).heap,
            final(self).events == old(self).events,
            final(self).call_break == old(self).call_break,
            final(self).call_continue == old(self).call_continue,
            final(self).call_return == old(self).call_return,
    {
        let ghost vv = v@;
        self.stack.push(v);
        proof {
            assert(self.stack_view() =~= old(self).stack_view().push(vv));
        }
    }

    /// Pops a value; an empty stack is an underflow.
    fn pop_val(&mut self) -> (r: Result<Value, VmError>)
        ensures
            final(self).local_vars == old(self).local_vars,
            final(self).heap == old(self).heap,
            final(self).events == old(self).events,
            final(self).call_break == old(self).call_break,
            final(self).call_continue == old(self).call_continue,
            final(self).call_return == old(self).call_return,
            old(self).stack_view().len() == 0 ==> r == Err::<Value, VmError>(
                VmError::StackUnderflow,
            ) && final(self).stack_view() == old(self).stack_view(),
            old(self).stack_view().len() > 0 ==> {
                &&& r matches Ok(v) && v@ == old(self).stack_view().last()
                &&& final(self).stack_view() == old(self).stack_view().drop_last()
            },
    {
        match self.stack.pop() {
            Some(v) => {
                proof {
                    assert(self.stack_view() =~= old(self).stack_view().drop_last());
                    assert(v@ == old(self).stack_view().last());
                }
                Ok(v)
            },
            None => Err(VmError::StackUnderflow),
        }
    }

    /// Records a diagnostic snapshot of the stack and the locals frames.
    fn step_dump(&mut self)
        ensures
            final(self).stack == old(self).stack,
            final(self).local_vars == old(self).local_vars,
            final(self).heap == old(self).heap,
            final(self).call_break == old(self).call_break,
            final(self).call_continue == old(self).call_continue,
            final(self).call_return == old(self).call_return,
            final(self).events@.len() == old(self).events@.len() + 1,
            final(self).events@.subrange(0, old(self).events@.len() as int) == old(self).events@,
            ({
                match final(self).events@.last() {
                    VmEvent::Dump { stack, locals } => {
                        &&& vals_view(stack@) == old(self).stack_view()
                        &&& locals@.map_values(|f: Vec<Value>| vals_view(f@)) == old(
                            self,
                        ).frames_view()
                    },
                    VmEvent::Greeting => false,
                }
            }),
    {
        let snapshot_stack = dup_values(&self.stack);
        let snapshot_locals = dup_frames(&self.local_vars);
        self.events.push(VmEvent::Dump { stack: snapshot_stack, locals: snapshot_locals });
        proof {
            assert(self.events@.subrange(0, old(self).events@.len() as int) =~= old(self).events@);
        }
    }

    /// Pushes a copy of the current frame's slot `index`.
    fn step_get_local(&mut self, index: u32) -> (r: Result<(), VmError>)
        ensures
            final(self).local_vars == old(self).local_vars,
            final(self).heap == old(self).heap,
            final(self).events == old(self).events,
            final(self).call_break == old(self).call_break,
            final(self).call_continue == old(self).call_continue,
            final(self).call_return == old(self).call_return,
            r is Ok ==> final(self).stack_view().len() == old(self).stack_view().len() + 1,
            r is Err ==> final(self).stack == old(self).stack,
            ({
                let fr = old(self).frames_view();
                if fr.len() == 0 {
                    r == Err::<(), VmError>(VmError::NoFrame)
                } else if index as int >= fr.last().len() {
                    r == Err::<(), VmError>(VmError::LocalOutOfRange)
                } else {
                    r is Ok && final(self).stack_view() == old(self).stack_view().push(
                        fr.last()[index as int],
                    )
                }
            }),
    {
        let fl = self.local_vars.len();
        if fl == 0 {
            return Err(VmError::NoFrame);
        }
        proof {
            assert(self.frames_view().last() == vals_view(self.local_vars@.last()@));
        }
        if (index as usize) < self.local_vars[fl - 1].len() {
            let v = self.local_vars[fl - 1][index as usize].duplicate();
            self.push_val(v);
            Ok(())
        } else {
            Err(VmError::LocalOutOfRange)
        }
    }

    /// Pops a value into the current frame's slot `index`.
    fn step_set_local(&mut self, index: u32) -> (r: Result<(), VmError>)
        ensures
            final(self).heap == old(self).heap,
            final(self).events == old(self).events,
            final(self).call_break == old(self).call_break,
            final(self).call_continue == old(self).call_continue,
            final(self).call_return == old(self).call_return,
            final(self).frames_view().len() == old(self).frames_view().len(),
            forall|i: int|
                0 <= i < old(self).frames_view().len() - 1 ==> final(self).frames_view()[i] == old(
                    self,
                ).frames_view()[i],
            r is Ok ==> final(self).stack_view().len() == old(self).stack_view().len() - 1,
            ({
                let fr = old(self).frames_view();
                if old(self).stack_view().len() == 0 {
                    r == Err::<(), VmError>(VmError::StackUnderflow)
                } else if fr.len() == 0 {
                    r == Err::<(), VmError>(VmError::NoFrame)
                } else if index as int >= fr.last().len() {
                    r == Err::<(), VmError>(VmError::LocalOutOfRange)
                } else {
                    r is Ok && final(self).stack_view() == old(self).stack_view().drop_last()
                        && final(self).frames_view().last() == fr.last().update(
                        index as int,
                        old(self).stack_view().last(),
                    )
                }
            }),
    {
        let v = match self.pop_val() {
            Ok(v) => v,
            Err(e) => {
                return Err(e);
            },
        };
        let fl = self.local_vars.len();
        if fl == 0 {
            return Err(VmError::NoFrame);
        }
        proof {
            assert(self.frames_view().last() == vals_view(self.local_vars@.last()@));
        }
        if (index as usize) < self.local_vars[fl - 1].len() {
            let ghost pre = *self;
            self.local_vars[fl - 1][index as usize] = v;
            proof {
                assert(final(self).frames_view().len() == pre.frames_view().len());
                assert forall|i: int|
                    0 <= i < pre.frames_view().len() - 1 implies self.frames_view()[i]
                    == pre.frames_view()[i] by {
                    assert(self.local_vars@[i] == pre.local_vars@[i]);
                }
                assert(self.frames_view().last() =~= pre.frames_view().last().update(
                    index as int,
                    v@,
                ));
            }
            Ok(())
        } else {
            Err(VmError::LocalOutOfRange)
        }
    }

    /// Resizes the current frame to `size` slots; new slots hold `Null`.
    fn step_reserve(&mut self, size: u32) -> (r: Result<(), VmError>)
        ensures
            final(self).stack == old(self).stack,
            final(self).heap == old(self).heap,
            final(self).events == old(self).events,
            final(self).call_break == old(self).call_break,
            final(self).call_continue == old(self).call_continue,
            final(self).call_return == old(self).call_return,
            final(self).frames_view().len() == old(self).frames_view().len(),
            forall|i: int|
                0 <= i < old(self).frames_view().len() - 1 ==> final(self).frames_view()[i] == old(
                    self,
                ).frames_view()[i],
            ({
                let fr = old(self).frames_view();
                if fr.len() == 0 {
                    r == Err::<(), VmError>(VmError::NoFrame)
                } else {
                    r is Ok && final(self).frames_view().last() == resize_v(
                        fr.last(),
                        size as nat,
                    )
                }
            }),
    {
        let fl = self.local_vars.len();
        if fl == 0 {
            return Err(VmError::NoFrame);
        }
        let ghost pre = *self;
        resize_frame(&mut self.local_vars[fl - 1], size as usize);
        proof {
            assert(final(self).frames_view().len() == pre.frames_view().len());
            assert forall|i: int|
                0 <= i < pre.frames_view().len() - 1 implies self.frames_view()[i]
                == pre.frames_view()[i] by {
                assert(self.local_vars@[i] == pre.local_vars@[i]);
            }
            assert(self.frames_view().last() == vals_view(self.local_vars@.last()@));
            assert(pre.frames_view().last() == vals_view(pre.local_vars@.last()@));
            assert(self.frames_view().last() =~= resize_v(pre.frames_view().last(), size as nat));
        }
        Ok(())
    }

    /// Allocates an object of `fields` null slots and pushes its handle.
    fn step_allocate(&mut self, fields: u32)
        ensures
            final(self).local_vars == old(self).local_vars,
            final(self).events == old(self).events,
            final(self).call_break == old(self).call_break,
            final(self).call_continue == old(self).call_continue,
            final(self).call_return == old(self).call_return,
            final(self).heap_view().len() == old(self).heap_view().len() + 1,
            forall|i: int|
                0 <= i < old(self).heap_view().len() ==> final(self).heap_view()[i] == old(
                    self,
                ).heap_view()[i],
            final(self).stack_view() == old(self).stack_view().push(
                ValueV::Obj(old(self).heap_view().len() as int),
            ),
            final(self).heap_view().last() == ObjectV::Values(
                Seq::new(fields as nat, |i: int| ValueV::Null),
            ),
    {
        let cell = null_fields(fields);
        let ghost pre_heap = self.heap_view();
        let h = self.heap.len();
        self.heap.push(Object::Values(cell));
        proof {
            assert(self.heap_view() =~= pre_heap.push(self.heap@.last()@));
        }
        self.push_val(Value::Object(h));
    }

    /// Pops an object handle and pushes a copy of its field `index`.
    fn step_get_field(&mut self, index: u32) -> (r: Result<(), VmError>)
        ensures
            final(self).local_vars == old(self).local_vars,
            final(self).heap == old(self).heap,
            final(self).events == old(self).events,
            final(self).call_break == old(self).call_break,
            final(self).call_continue == old(self).call_continue,
            final(self).call_return == old(self).call_return,
            r is Ok ==> final(self).stack_view().len() == old(self).stack_view().len(),
            ({
                let stk = old(self).stack_view();
                let hv = old(self).heap_view();
                if stk.len() == 0 {
                    r == Err::<(), VmError>(VmError::StackUnderflow)
                } else {
                    match stk.last() {
                        ValueV::Obj(h) => {
                            if !(0 <= h < hv.len()) {
                                r == Err::<(), VmError>(VmError::InvalidHandle)
                            } else {
                                match hv[h] {
                                    ObjectV::Values(slots) => {
                                        if index as int >= slots.len() {
                                            r == Err::<(), VmError>(VmError::FieldOutOfRange)
                                        } else {
                                            r is Ok && final(self).stack_view()
                                                == stk.drop_last().push(slots[index as int])
                                        }
                                    },
                                    ObjectV::Native(_) => r == Err::<(), VmError>(
                                        VmError::NotAValuesObject,
                                    ),
                                }
                            }
                        },
                        _ => r == Err::<(), VmError>(VmError::NotAnObject),
                    }
                }
            }),
    {
        let v = match self.pop_val() {
            Ok(v) => v,
            Err(e) => {
                return Err(e);
            },
        };
        match v {
            Value::Object(h) => {
                if h < self.heap.len() {
                    proof {
                        assert(self.heap_view()[h as int] == self.heap@[h as int]@);
                    }
                    match &self.heap[h] {
                        Object::Values(fields) => {
                            if (index as usize) < fields.len() {
                                let fv = fields[index as usize].duplicate();
                                self.push_val(fv);
                                Ok(())
                            } else {
                                Err(VmError::FieldOutOfRange)
                            }
                        },
                        Object::Native(_) => Err(VmError::NotAValuesObject),
                    }
                } else {
                    Err(VmError::InvalidHandle)
                }
            },
            _ => Err(VmError::NotAnObject),
        }
    }

    /// Pops a value and writes it into field `index` of the object whose
    /// handle stays on top of the stack.
    fn step_set_field(&mut self, index: u32) -> (r: Result<(), VmError>)
        ensures
            final(self).local_vars == old(self).local_vars,
            final(self).events == old(self).events,
            final(self).call_break == old(self).call_break,
            final(self).call_continue == old(self).call_continue,
            final(self).call_return == old(self).call_return,
            final(self).heap_view().len() == old(self).heap_view().len(),
            forall|i: int|
                0 <= i < old(self).heap_view().len() ==> shape_eq(
                    old(self).heap_view()[i],
                    #[trigger] final(self).heap_view()[i],
                ),
            r is Ok ==> final(self).stack_view().len() == old(self).stack_view().len() - 1,
            ({
                let stk = old(self).stack_view();
                let hv = old(self).heap_view();
                if stk.len() < 2 {
                    r == Err::<(), VmError>(VmError::StackUnderflow)
                } else {
                    match stk[stk.len() - 2] {
                        ValueV::Obj(h) => {
                            if !(0 <= h < hv.len()) {
                                r == Err::<(), VmError>(VmError::InvalidHandle)
                            } else {
                                match hv[h] {
                                    ObjectV::Values(slots) => {
                                        if index as int >= slots.len() {
                                            r == Err::<(), VmError>(VmError::FieldOutOfRange)
                                        } else {
                                            r is Ok && final(self).stack_view() == stk.drop_last()
                                                && final(self).heap_view() == hv.update(
                                                h,
                                                ObjectV::Values(
                                                    slots.update(index as int, stk.last()),
                                                ),
                                            )
                                        }
                                    },
                                    ObjectV::Native(_) => r == Err::<(), VmError>(
                                        VmError::NotAValuesObject,
                                    ),
                                }
                            }
                        },
                        _ => r == Err::<(), VmError>(VmError::NotAnObject),
                    }
                }
            }),
    {
        let v = match self.pop_val() {
            Ok(v) => v,
            Err(e) => {
                return Err(e);
            },
        };
        let sl = self.stack.len();
        proof {
            assert(self.stack_view().len() == self.stack@.len());
            assert(old(self).stack_view().len() == sl + 1);
        }
        if sl == 0 {
            return Err(VmError::StackUnderflow);
        }
        proof {
            assert(self.stack_view()[sl - 1] == self.stack@[sl - 1]@);
            assert(self.stack_view()[sl - 1] == old(self).stack_view()[sl - 1]);
        }
        let h: usize = match &self.stack[sl - 1] {
            Value::Object(h) => *h,
            _ => {
                return Err(VmError::NotAnObject);
            },
        };
        if h >= self.heap.len() {
            return Err(VmError::InvalidHandle);
        }
        let ghost pre = *self;
        let ghost vv = v@;
        let wrote: Result<(), VmError> = match &mut self.heap[h] {
            Object::Values(fields) => {
                if (index as usize) < fields.len() {
                    fields[index as usize] = v;
                    Ok(())
                } else {
                    Err(VmError::FieldOutOfRange)
                }
            },
            Object::Native(_) => Err(VmError::NotAValuesObject),
        };
        proof {
            assert(self.heap_view().len() == pre.heap_view().len());
            assert(pre.heap_view()[h as int] == pre.heap@[h as int]@);
            assert(self.heap_view()[h as int] == self.heap@[h as int]@);
            if wrote is Ok {
                assert(pre.heap@[h as int]@ matches ObjectV::Values(slots) && self.heap@[
                    h as int
                ]@ == ObjectV::Values(slots.update(index as int, vv))) by {
                    match pre.heap@[h as int] {
                        Object::Values(oldf) => {
                            assert(vals_view(self.heap@[h as int]->Values_0@) =~= vals_view(
                                oldf@,
                            ).update(index as int, vv));
                        },
                        Object::Native(_) => {},
                    }
                }
            }
            assert forall|i: int|
                0 <= i < pre.heap_view().len() implies shape_eq(
                pre.heap_view()[i],
                #[trigger] self.heap_view()[i],
            ) by {
                if i != h {
                    assert(self.heap@[i] == pre.heap@[i]);
                    assert(self.heap_view()[i] == pre.heap_view()[i]);
                }
                assert(shape_eq(pre.heap_view()[i], self.heap_view()[i]));
            }
            if wrote is Ok {
                match pre.heap@[h as int] {
                    Object::Values(oldf) => {
                        assert(self.heap_view() =~= pre.heap_view().update(
                            h as int,
                            ObjectV::Values(vals_view(oldf@).update(index as int, vv)),
                        ));
                    },
                    Object::Native(_) => {},
                }
            }
        }
        match wrote {
            Ok(()) => Ok(()),
            Err(e) => Err(e),
        }
    }

    /// Duplicates the top of the stack.
    fn step_dup(&mut self) -> (r: Result<(), VmError>)
        ensures
            final(self).local_vars == old(self).local_vars,
            final(self).heap == old(self).heap,
            final(self).events == old(self).events,
            final(self).call_break == old(self).call_break,
            final(self).call_continue == old(self).call_continue,
            final(self).call_return == old(self).call_return,
            old(self).stack_view().len() == 0 ==> r == Err::<(), VmError>(VmError::StackUnderflow)
                && final(self).stack == old(self).stack,
            old(self).stack_view().len() > 0 ==> r is Ok && final(self).stack_view() == old(
                self,
            ).stack_view().push(old(self).stack_view().last()),
    {
        let sl = self.stack.len();
        if sl == 0 {
            return Err(VmError::StackUnderflow);
        }
        proof {
            assert(self.stack_view()[sl - 1] == self.stack@[sl - 1]@);
        }
        let v = self.stack[sl - 1].duplicate();
        self.push_val(v);
        Ok(())
    }

    /// Pops two operands and pushes the result of `b OP a`, where `a` was on
    /// top; see the operation helpers for the exact type rules.
    fn step_binary<F: FloatUnit>(&mut self, fpu: &F, op: BinOp) -> (r: Result<(), VmError>)
        ensures
            final(self).local_vars == old(self).local_vars,
            final(self).heap == old(self).heap,
            final(self).events == old(self).events,
            final(self).call_break == old(self).call_break,
            final(self).call_continue == old(self).call_continue,
            final(self).call_return == old(self).call_return,
            r is Ok ==> old(self).stack_view().len() >= 2 && final(self).stack_view().len() == old(
                self,
            ).stack_view().len() - 1,
            old(self).stack_view().len() < 2 ==> r == Err::<(), VmError>(VmError::StackUnderflow),
            ({
                let stk = old(self).stack_view();
                stk.len() >= 2 ==> {
                    let a = stk.last();
                    let b = stk[stk.len() - 2];
                    match binop_result(op, b, a) {
                        Some(out) => match out {
                            Some(val) => r is Ok && final(self).stack_view() == stk.drop_last(
                            ).drop_last().push(val),
                            None => r is Ok && final(self).stack_view().len() == stk.len() - 1
                                && final(self).stack_view().drop_last() == stk.drop_last(
                            ).drop_last(),
                        },
                        None => r == Err::<(), VmError>(binop_err(op, b, a)),
                    }
                }
            }),
    {
        let a = match self.pop_val() {
            Ok(v) => v,
            Err(e) => {
                return Err(e);
            },
        };
        let b = match self.pop_val() {
            Ok(v) => v,
            Err(e) => {
                return Err(e);
            },
        };
        let out = match op {
            BinOp::Add => apply_add(fpu, b, a),
            BinOp::Sub => apply_sub(fpu, b, a),
            BinOp::Mul => apply_mul(fpu, b, a),
            BinOp::Div => apply_div(fpu, b, a),
            BinOp::Eq => apply_eq(fpu, b, a, true),
            BinOp::Ne => apply_eq(fpu, b, a, false),
            BinOp::Lt => apply_order(fpu, b, a, OrderOp::Lt),
            BinOp::Le => apply_order(fpu, b, a, OrderOp::Le),
            BinOp::Gt => apply_order(fpu, b, a, OrderOp::Gt),
            BinOp::Ge => apply_order(fpu, b, a, OrderOp::Ge),
        };
        match out {
            Ok(v) => {
                self.push_val(v);
                Ok(())
            },
            Err(e) => Err(e),
        }
    }

    /// Pops one numeric operand and pushes it moved by one; `up` picks the
    /// direction.
    fn step_unary<F: FloatUnit>(&mut self, fpu: &F, up: bool) -> (r: Result<(), VmError>)
        ensures
            final(self).local_vars == old(self).local_vars,
            final(self).heap == old(self).heap,
            final(self).events == old(self).events,
            final(self).call_break == old(self).call_break,
            final(self).call_continue == old(self).call_continue,
            final(self).call_return == old(self).call_return,
            r is Ok ==> old(self).stack_view().len() >= 1 && final(self).stack_view().len() == old(
                self,
            ).stack_view().len(),
            old(self).stack_view().len() == 0 ==> r == Err::<(), VmError>(VmError::StackUnderflow),
            ({
                let stk = old(self).stack_view();
                stk.len() >= 1 ==> match step_result(stk.last(), up) {
                    Some(out) => match out {
                        Some(val) => r is Ok && final(self).stack_view() == stk.drop_last().push(
                            val,
                        ),
                        None => r is Ok && final(self).stack_view().len() == stk.len()
                            && final(self).stack_view().drop_last() == stk.drop_last(),
                    },
                    None => r == Err::<(), VmError>(VmError::TypeMismatch),
                }
            }),
    {
        let a = match self.pop_val() {
            Ok(v) => v,
            Err(e) => {
                return Err(e);
            },
        };
        match apply_step(fpu, a, up) {
            Ok(v) => {
                self.push_val(v);
                Ok(())
            },
            Err(e) => Err(e),
        }
    }
}

/// A frame resized to `size` slots: kept slots first, then null slots.
pub open spec fn resize_v(f: Seq<ValueV>, size: nat) -> Seq<ValueV> {
    if size <= f.len() {
        f.subrange(0, size as int)
    } else {
        f + Seq::new((size - f.len()) as nat, |i: int| ValueV::Null)
    }
}

/// Which error `b OP a` raises when it yields no value: division by zero (or
/// its one overflowing quotient) for an integer division, a type mismatch
/// everywhere else.
pub open spec fn binop_err(op: BinOp, b: ValueV, a: ValueV) -> VmError {
    match (b, a) {
        (ValueV::Int(x), ValueV::Int(y)) => {
            if op is Div && x.checked_div(y) is None {
                VmError::DivideByZero
            } else {
                VmError::TypeMismatch
            }
        },
        _ => VmError::TypeMismatch,
    }
}

/// What `b OP a` yields on the models: `None` for a type error; `Some(None)`
/// where only the host's floating-point unit knows the value; `Some(Some(v))`
/// where the machine's own rules pin `v` down.
pub open spec fn binop_result(op: BinOp, b: ValueV, a: ValueV) -> Option<Option<ValueV>> {
    match (b, a) {
        (ValueV::Int(x), ValueV::Int(y)) => match op {
            BinOp::Add => Some(Some(ValueV::Int(vstd::wrapping::i32_specs::wrapping_add(x, y)))),
            BinOp::Sub => Some(Some(ValueV::Int(vstd::wrapping::i32_specs::wrapping_sub(x, y)))),
            BinOp::Mul => Some(Some(ValueV::Int(vstd::wrapping::i32_specs::wrapping_mul(x, y)))),
            BinOp::Div => match x.checked_div(y) {
                Some(q) => Some(Some(ValueV::Int(q))),
                None => None,
            },
            BinOp::Eq => Some(Some(ValueV::Bool(x == y))),
            BinOp::Ne => Some(Some(ValueV::Bool(x != y))),
            BinOp::Lt => Some(Some(ValueV::Bool(x < y))),
            BinOp::Le => Some(Some(ValueV::Bool(x <= y))),
            BinOp::Gt => Some(Some(ValueV::Bool(x > y))),
            BinOp::Ge => Some(Some(ValueV::Bool(x >= y))),
        },
        (ValueV::Float(_), ValueV::Float(_)) => Some(None),
        (ValueV::Str(x), ValueV::Str(y)) => match op {
            BinOp::Add => Some(Some(ValueV::Str(x + y))),
            BinOp::Eq => Some(Some(ValueV::Bool(x == y))),
            BinOp::Ne => Some(Some(ValueV::Bool(x != y))),
            _ => None,
        },
        (ValueV::Bool(x), ValueV::Bool(y)) => match op {
            BinOp::Eq => Some(Some(ValueV::Bool(x == y))),
            BinOp::Ne => Some(Some(ValueV::Bool(x != y))),
            _ => None,
        },
        _ => None,
    }
}

/// What moving a value by one yields: `None` for a type error, `Some(None)`
/// for a float, `Some(Some(v))` for an integer.
pub open spec fn step_result(a: ValueV, up: bool) -> Option<Option<ValueV>> {
    match a {
        ValueV::Int(x) => Some(
            Some(
                ValueV::Int(
                    if up {
                        vstd::wrapping::i32_specs::wrapping_add(x, 1)
                    } else {
                        vstd::wrapping::i32_specs::wrapping_sub(x, 1)
                    },
                ),
            ),
        ),
        ValueV::Float(_) => Some(None),
        _ => None,
    }
}

/// The machine state's mathematical model: what the evaluator computes over.
#[verifier::ext_equal]
pub struct EvalState {
    pub stack: Seq<ValueV>,
    pub frames: Seq<Seq<ValueV>>,
    pub heap: Seq<ObjectV>,
    pub brk: bool,
    pub cont: bool,
    pub ret: bool,
}

/// The registries the evaluator resolves calls against.
#[verifier::ext_equal]
pub struct EvalEnv {
    pub mods: Seq<ModuleV>,
    pub dys: Seq<DyModuleV>,
}

/// The model of the machine's mutable state.
pub open spec fn st_model(st: VmState) -> EvalState {
    EvalState {
        stack: st.stack_view(),
        frames: st.frames_view(),
        heap: st.heap_view(),
        brk: st.call_break,
        cont: st.call_continue,
        ret: st.call_return,
    }
}

/// The model of the registries.
pub open spec fn env_of(modules: Seq<Module>, dymodules: Seq<DyModule>) -> EvalEnv {
    EvalEnv {
        mods: modules.map_values(|m: Module| m@),
        dys: dymodules.map_values(|m: DyModule| m@),
    }
}

/// The state with all three control-flow flags down.
pub open spec fn clear_v(s: EvalState) -> EvalState {
    EvalState { brk: false, cont: false, ret: false, ..s }
}

/// The state with one more value on the stack.
pub open spec fn push_v(s: EvalState, v: ValueV) -> EvalState {
    EvalState { stack: s.stack.push(v), ..s }
}

/// What one data instruction does to the state: `None` where only the host's
/// floating-point unit knows the result, `Some(Err(..))` on the §4.4 fault
/// conditions, `Some(Ok(..))` with the exact new state otherwise. Diagnostics
/// (`Dump`, `Hi`) only append host-rendered events, which the model omits.
pub open spec fn eval_data(s: EvalState, m: InstrV) -> Option<Result<EvalState, VmError>> {
    match m {
        InstrV::Dump => Some(Ok(s)),
        InstrV::Hi => Some(Ok(s)),
        InstrV::PushConstString { value } => Some(Ok(push_v(s, ValueV::Str(value)))),
        InstrV::PushConstInteger { value } => Some(Ok(push_v(s, ValueV::Int(value)))),
        InstrV::PushConstFloat { bits } => Some(Ok(push_v(s, ValueV::Float(bits)))),
        InstrV::PushConstBoolean { value } => Some(Ok(push_v(s, ValueV::Bool(value)))),
        InstrV::GetLocal { index } => {
            if s.frames.len() == 0 {
                Some(Err(VmError::NoFrame))
            } else if index as int >= s.frames.last().len() {
                Some(Err(VmError::LocalOutOfRange))
            } else {
                Some(Ok(push_v(s, s.frames.last()[index as int])))
            }
        },
        InstrV::SetLocal { index } => {
            if s.stack.len() == 0 {
                Some(Err(VmError::StackUnderflow))
            } else if s.frames.len() == 0 {
                Some(Err(VmError::NoFrame))
            } else if index as int >= s.frames.last().len() {
                Some(Err(VmError::LocalOutOfRange))
            } else {
                Some(
                    Ok(
                        EvalState {
                            stack: s.stack.drop_last(),
                            frames: s.frames.update(
                                s.frames.len() - 1,
                                s.frames.last().update(index as int, s.stack.last()),
                            ),
                            ..s
                        },
                    ),
                )
            }
        },
        InstrV::ReserveLocal { size } => {
            if s.frames.len() == 0 {
                Some(Err(VmError::NoFrame))
            } else {
                Some(
                    Ok(
                        EvalState {
                            frames: s.frames.update(
                                s.frames.len() - 1,
                                resize_v(s.frames.last(), size as nat),
                            ),
                            ..s
                        },
                    ),
                )
            }
        },
        InstrV::Allocate { fields } => Some(
            Ok(
                EvalState {
                    stack: s.stack.push(ValueV::Obj(s.heap.len() as int)),
                    heap: s.heap.push(
                        ObjectV::Values(Seq::new(fields as nat, |i: int| ValueV::Null)),
                    ),
                    ..s
                },
            ),
        ),
        InstrV::GetField { index } => {
            if s.stack.len() == 0 {
                Some(Err(VmError::StackUnderflow))
            } else {
                match s.stack.last() {
                    ValueV::Obj(h) => {
                        if !(0 <= h < s.heap.len()) {
                            Some(Err(VmError::InvalidHandle))
                        } else {
                            match s.heap[h] {
                                ObjectV::Values(slots) => {
                                    if index as int >= slots.len() {
                                        Some(Err(VmError::FieldOutOfRange))
                                    } else {
                                        Some(
                                            Ok(
                                                EvalState {
                                                    stack: s.stack.drop_last().push(
                                                        slots[index as int],
                                                    ),
                                                    ..s
                                                },
                                            ),
                                        )
                                    }
                                },
                                ObjectV::Native(_) => Some(Err(VmError::NotAValuesObject)),
                            }
                        }
                    },
                    _ => Some(Err(VmError::NotAnObject)),
                }
            }
        },
        InstrV::SetField { index } => {
            if s.stack.len() < 2 {
                Some(Err(VmError::StackUnderflow))
            } else {
                match s.stack[s.stack.len() - 2] {
                    ValueV::Obj(h) => {
                        if !(0 <= h < s.heap.len()) {
                            Some(Err(VmError::InvalidHandle))
                        } else {
                            match s.heap[h] {
                                ObjectV::Values(slots) => {
                                    if index as int >= slots.len() {
                                        Some(Err(VmError::FieldOutOfRange))
                                    } else {
                                        Some(
                                            Ok(
                                                EvalState {
                                                    stack: s.stack.drop_last(),
                                                    heap: s.heap.update(
                                                        h,
                                                        ObjectV::Values(
                                                            slots.update(
                                                                index as int,
                                                                s.stack.last(),
                                                            ),
                                                        ),
                                                    ),
                                                    ..s
                                                },
                                            ),
                                        )
                                    }
                                },
                                ObjectV::Native(_) => Some(Err(VmError::NotAValuesObject)),
                            }
                        }
                    },
                    _ => Some(Err(VmError::NotAnObject)),
                }
            }
        },
        InstrV::Pop => {
            if s.stack.len() == 0 {
                Some(Err(VmError::StackUnderflow))
            } else {
                Some(Ok(EvalState { stack: s.stack.drop_last(), ..s }))
            }
        },
        InstrV::Dup => {
            if s.stack.len() == 0 {
                Some(Err(VmError::StackUnderflow))
            } else {
                Some(Ok(push_v(s, s.stack.last())))
            }
        },
        InstrV::Add => eval_bin(s, BinOp::Add),
        InstrV::Sub => eval_bin(s, BinOp::Sub),
        InstrV::Mul => eval_bin(s, BinOp::Mul),
        InstrV::Div => eval_bin(s, BinOp::Div),
        InstrV::Eq => eval_bin(s, BinOp::Eq),
        InstrV::Ne => eval_bin(s, BinOp::Ne),
        InstrV::Lt => eval_bin(s, BinOp::Lt),
        InstrV::Le => eval_bin(s, BinOp::Le),
        InstrV::Gt => eval_bin(s, BinOp::Gt),
        InstrV::Ge => eval_bin(s, BinOp::Ge),
        InstrV::Inc => eval_step(s, true),
        InstrV::Dec => eval_step(s, false),
        _ => None,
    }
}

/// A binary operation on the top two stack values.
pub open spec fn eval_bin(s: EvalState, op: BinOp) -> Option<Result<EvalState, VmError>> {
    if s.stack.len() < 2 {
        Some(Err(VmError::StackUnderflow))
    } else {
        let a = s.stack.last();
        let b = s.stack[s.stack.len() - 2];
        match binop_result(op, b, a) {
            Some(out) => match out {
                Some(v) => Some(
                    Ok(EvalState { stack: s.stack.drop_last().drop_last().push(v), ..s }),
                ),
                None => None,
            },
            None => Some(Err(binop_err(op, b, a))),
        }
    }
}

/// Moving the numeric top of the stack by one.
pub open spec fn eval_step(s: EvalState, up: bool) -> Option<Result<EvalState, VmError>> {
    if s.stack.len() == 0 {
        Some(Err(VmError::StackUnderflow))
    } else {
        match step_result(s.stack.last(), up) {
            Some(out) => match out {
                Some(v) => Some(Ok(EvalState { stack: s.stack.drop_last().push(v), ..s })),
                None => None,
            },
            None => Some(Err(VmError::TypeMismatch)),
        }
    }
}

/// What one instruction does to state and fuel. `None` where a native call
/// or a floating-point result leaves the modeled fragment.
pub open spec fn eval_inst(env: EvalEnv, s: EvalState, m: InstrV, fuel: nat) -> Option<
    Result<(EvalState, nat), VmError>,
>
    decreases fuel, inst_size(m), 0int,
{
    match m {
        InstrV::Nop => Some(Ok((s, fuel))),
        InstrV::Version { .. } => Some(Ok((s, fuel))),
        InstrV::Fn { .. } => Some(Err(VmError::DeclarationAtRuntime)),
        InstrV::Module { .. } => Some(Err(VmError::DeclarationAtRuntime)),
        InstrV::LoadModule { .. } => Some(Err(VmError::DeclarationAtRuntime)),
        InstrV::GetFunction { .. } => Some(Err(VmError::DeclarationAtRuntime)),
        InstrV::Return => Some(Ok((EvalState { ret: true, ..s }, fuel))),
        InstrV::Break => Some(Ok((EvalState { brk: true, ..s }, fuel))),
        InstrV::Continue => Some(Ok((EvalState { cont: true, ..s }, fuel))),
        InstrV::Then { then_block, else_block } => {
            if s.stack.len() == 0 {
                Some(Err(VmError::StackUnderflow))
            } else {
                match s.stack.last() {
                    ValueV::Bool(bv) => {
                        let s1 = EvalState { stack: s.stack.drop_last(), ..s };
                        if bv {
                            eval_rest(env, clear_v(s1), then_block, fuel)
                        } else {
                            eval_rest(env, clear_v(s1), else_block, fuel)
                        }
                    },
                    _ => Some(Err(VmError::TypeMismatch)),
                }
            }
        },
        InstrV::Loop { block } => eval_loop(env, s, block, fuel),
        InstrV::Call { module, function, param_count } => {
            if param_count as int > s.stack.len() {
                Some(Err(VmError::StackUnderflow))
            } else {
                let keep = s.stack.len() - param_count as int;
                let args = s.stack.subrange(keep, s.stack.len() as int);
                let s1 = EvalState { stack: s.stack.subrange(0, keep), ..s };
                match eval_call(env, s1, module, function, args, fuel) {
                    Option::None => None,
                    Option::Some(Err(e)) => Some(Err(e)),
                    Option::Some(Ok((s2, f2))) => Some(Ok((clear_v(s2), f2))),
                }
            }
        },
        _ => match eval_data(s, m) {
            Option::None => None,
            Option::Some(Ok(s2)) => Some(Ok((s2, fuel))),
            Option::Some(Err(e)) => Some(Err(e)),
        },
    }
}

/// One call, with the arguments already split off the caller's stack: the
/// callee's code runs on a fresh frame equal to the arguments, and the frame
/// is popped afterwards. A native callee leaves the modeled fragment.
pub open spec fn eval_call(
    env: EvalEnv,
    s: EvalState,
    module: Seq<char>,
    function: Seq<char>,
    args: Seq<ValueV>,
    fuel: nat,
) -> Option<Result<(EvalState, nat), VmError>>
    decreases fuel, 0int, 0int,
{
    match find_mod(env.mods, module) {
        Option::Some(mv) => match find_fn(mv.functions, function) {
            Option::Some(f) => match f {
                FunctionV::Code { code, .. } => {
                    if fuel == 0 {
                        Some(Err(VmError::OutOfFuel))
                    } else {
                        let s1 = EvalState { frames: s.frames.push(args), ..s };
                        match eval_rest(env, clear_v(s1), code, (fuel - 1) as nat) {
                            Option::None => None,
                            Option::Some(Err(e)) => Some(Err(e)),
                            Option::Some(Ok((s2, f2))) => Some(
                                Ok((EvalState { frames: s2.frames.drop_last(), ..s2 }, f2)),
                            ),
                        }
                    }
                },
                FunctionV::Native { .. } => None,
            },
            Option::None => Some(Err(VmError::UnknownFunction)),
        },
        Option::None => match find_dymod(env.dys, module) {
            Option::Some(dm) => {
                if has_import(dm.imports, function) {
                    None
                } else {
                    Some(Err(VmError::UnknownFunction))
                }
            },
            Option::None => Some(Err(VmError::UnknownModule)),
        },
    }
}

/// The loop: one fuel unit per iteration; `break` ends it with its flag taken
/// down, `continue` starts the next iteration, `return` passes through.
pub open spec fn eval_loop(env: EvalEnv, s: EvalState, block: Seq<InstrV>, fuel: nat) -> Option<
    Result<(EvalState, nat), VmError>,
>
    decreases fuel, code_size(block), 2int,
{
    if fuel == 0 {
        Some(Err(VmError::OutOfFuel))
    } else {
        match eval_rest(env, clear_v(s), block, (fuel - 1) as nat) {
            Option::None => None,
            Option::Some(Err(e)) => Some(Err(e)),
            Option::Some(Ok((s1, f1))) => {
                if s1.brk {
                    Some(Ok((EvalState { brk: false, ..s1 }, f1)))
                } else if s1.cont {
                    if f1 < fuel {
                        eval_loop(env, EvalState { cont: false, ..s1 }, block, f1)
                    } else {
                        Some(Err(VmError::OutOfFuel))
                    }
                } else if s1.ret {
                    Some(Ok((s1, f1)))
                } else {
                    if f1 < fuel {
                        eval_loop(env, s1, block, f1)
                    } else {
                        Some(Err(VmError::OutOfFuel))
                    }
                }
            },
        }
    }
}

/// A sequence, instruction by instruction, stopping early when a control-flow
/// flag goes up.
pub open spec fn eval_rest(env: EvalEnv, s: EvalState, code: Seq<InstrV>, fuel: nat) -> Option<
    Result<(EvalState, nat), VmError>,
>
    decreases fuel, code_size(code), 1int,
{
    if code.len() == 0 {
        Some(Ok((s, fuel)))
    } else {
        match eval_inst(env, s, code[0], fuel) {
            Option::None => None,
            Option::Some(Err(e)) => Some(Err(e)),
            Option::Some(Ok((s1, f1))) => {
                if s1.brk || s1.cont || s1.ret {
                    Some(Ok((s1, f1)))
                } else {
                    if f1 <= fuel && code_size(code.drop_first()) < code_size(code) {
                        eval_rest(env, s1, code.drop_first(), f1)
                    } else {
                        Some(Err(VmError::OutOfFuel))
                    }
                }
            },
        }
    }
}

/// Whether the named function resolves to a native callable: a `Native`
/// entry of a static module, or a bound import of a dynamic module.
pub open spec fn native_callee(env: EvalEnv, module: Seq<char>, function: Seq<char>) -> bool {
    match find_mod(env.mods, module) {
        Option::Some(mv) => find_fn(mv.functions, function) matches Some(
            FunctionV::Native { .. },
        ),
        Option::None => match find_dymod(env.dys, module) {
            Option::Some(dm) => has_import(dm.imports, function),
            Option::None => false,
        },
    }
}

/// A whole execution entry: the flags are taken down first, then the sequence
/// runs.
pub open spec fn eval_seq(env: EvalEnv, s: EvalState, code: Seq<InstrV>, fuel: nat) -> Option<
    Result<(EvalState, nat), VmError>,
> {
    eval_rest(env, clear_v(s), code, fuel)
}

/// Control-flow propagation, loop half: when a loop body ends with `return`
/// raised, the loop ends at once with the flag still up — so the enclosing
/// function body exits too; when the body ends with `break` raised, only the
/// loop ends, with the flag taken down — so the enclosing sequence continues
/// with the instruction after the loop.
pub proof fn lemma_control_flow_propagation(
    env: EvalEnv,
    s: EvalState,
    block: Seq<InstrV>,
    fuel: nat,
)
    requires
        fuel > 0,
    ensures
        ({
            match eval_rest(env, clear_v(s), block, (fuel - 1) as nat) {
                Option::Some(Ok((s1, f1))) => {
                    &&& (s1.ret && !s1.brk && !s1.cont ==> eval_loop(env, s, block, fuel)
                        == Some(Ok::<(EvalState, nat), VmError>((s1, f1))))
                    &&& (s1.brk ==> eval_loop(env, s, block, fuel) == Some(Ok::<
                        (EvalState, nat),
                        VmError,
                    >((EvalState { brk: false, ..s1 }, f1))))
                },
                _ => true,
            }
        }),
{
}

/// Control-flow propagation, sequence half: a raised flag exits the
/// enclosing sequence at once — no instruction after the one that raised it
/// runs, whatever follows.
pub proof fn lemma_flag_exits_sequence(env: EvalEnv, s: EvalState, code: Seq<InstrV>, fuel: nat)
    requires
        code.len() > 0,
    ensures
        ({
            match eval_inst(env, s, code[0], fuel) {
                Option::Some(Ok((s1, f1))) => (s1.brk || s1.cont || s1.ret)
                    ==> eval_rest(env, s, code, fuel) == Some(Ok::<(EvalState, nat), VmError>(
                    (s1, f1),
                )),
                _ => true,
            }
        }),
{
}

/// Copies every locals frame, for a diagnostic snapshot.
fn dup_frames(frames: &Vec<Vec<Value>>) -> (r: Vec<Vec<Value>>)
    ensures
        r@.map_values(|f: Vec<Value>| vals_view(f@)) == frames@.map_values(
            |f: Vec<Value>| vals_view(f@),
        ),
{
    let mut r: Vec<Vec<Value>> = Vec::new();
    let n = frames.len();
    let mut i: usize = 0;
    while i < n
        invariant
            i <= n,
            n == frames@.len(),
            r@.len() == i,
            forall|j: int| 0 <= j < i ==> vals_view(#[trigger] r@[j]@) == vals_view(frames@[j]@),
        decreases n - i,
    {
        r.push(dup_values(&frames[i]));
        i = i + 1;
    }
    proof {
        assert(r@.map_values(|f: Vec<Value>| vals_view(f@)) =~= frames@.map_values(
            |f: Vec<Value>| vals_view(f@)));
    }
    r
}

/// Grows or shrinks a frame to `size` slots; new slots hold `Null`, kept
/// slots keep their values.
fn resize_frame(frame: &mut Vec<Value>, size: usize)
    ensures
        final(frame)@.len() == size,
        forall|i: int| 0 <= i < size && i < old(frame)@.len() ==> final(frame)@[i] == old(
            frame,
        )@[i],
        forall|i: int|
            old(frame)@.len() <= i < size ==> (#[trigger] final(frame)@[i])@ == ValueV::Null,
{
    if size <= frame.len() {
        frame.truncate(size);
    } else {
        while frame.len() < size
            invariant
                old(frame)@.len() <= frame@.len() <= size,
                forall|i: int| 0 <= i < old(frame)@.len() ==> frame@[i] == old(frame)@[i],
                forall|i: int|
                    old(frame)@.len() <= i < frame@.len() ==> (#[trigger] frame@[i])@
                        == ValueV::Null,
            decreases size - frame.len(),
        {
            frame.push(Value::Null);
        }
    }
}

/// Builds an object cell of `fields` null slots.
fn null_fields(fields: u32) -> (r: Vec<Value>)
    ensures
        vals_view(r@) == Seq::new(fields as nat, |i: int| ValueV::Null),
{
    let mut r: Vec<Value> = Vec::new();
    let mut i: u32 = 0;
    while i < fields
        invariant
            i <= fields,
            r@.len() == i,
            forall|j: int| 0 <= j < i ==> (#[trigger] r@[j])@ == ValueV::Null,
        decreases fields - i,
    {
        r.push(Value::Null);
        i = i + 1;
    }
    proof {
        assert(vals_view(r@) =~= Seq::new(fields as nat, |i: int| ValueV::Null));
    }
    r
}


/// Runs one call: resolves the module and function, then either executes the
/// function's code in a fresh locals frame or hands the arguments to the
/// host's native function. The caller's locals frames come back untouched.
fn do_call<H: Host, F: FloatUnit>(
    st: &mut VmState,
    modules: &Vec<Module>,
    dymodules: &Vec<DyModule>,
    host: &mut H,
    fpu: &F,
    module: &str,
    function: &str,
    args: Vec<Value>,
    fuel: u64,
) -> (r: Result<u64, VmError>)
    ensures
        final(st).frames_view() == old(st).frames_view(),
        final(st).heap_view().len() >= old(st).heap_view().len(),
        forall|i: int|
            0 <= i < old(st).heap_view().len() ==> shape_eq(
                old(st).heap_view()[i],
                #[trigger] final(st).heap_view()[i],
            ),
        r matches Ok(rem) ==> rem <= fuel,
        ({
            let env = env_of(modules@, dymodules@);
            match eval_call(
                env,
                st_model(*old(st)),
                module@,
                function@,
                vals_view(args@),
                fuel as nat,
            ) {
                Option::None => true,
                Option::Some(Ok((s2, f2))) => r matches Ok(rem) && st_model(*final(st)) == s2
                    && rem as nat == f2,
                Option::Some(Err(e)) => r == Err::<u64, VmError>(e),
            }
        }),
        ({
            let env = env_of(modules@, dymodules@);
            match find_mod(env.mods, module@) {
                Option::Some(mv) => find_fn(mv.functions, function@) is None ==> r == Err::<
                    u64,
                    VmError,
                >(VmError::UnknownFunction),
                Option::None => match find_dymod(env.dys, module@) {
                    Option::Some(dm) => !has_import(dm.imports, function@) ==> r == Err::<
                        u64,
                        VmError,
                    >(VmError::UnknownFunction),
                    Option::None => r == Err::<u64, VmError>(VmError::UnknownModule),
                },
            }
        }),
        ({
            let env = env_of(modules@, dymodules@);
            native_callee(env, module@, function@) ==> {
                &&& final(st).heap_view() == old(st).heap_view()
                &&& final(st).call_break == old(st).call_break
                &&& final(st).call_continue == old(st).call_continue
                &&& final(st).call_return == old(st).call_return
                &&& (final(st).stack_view() == old(st).stack_view() || (final(st).stack_view().len()
                    == old(st).stack_view().len() + 1 && final(st).stack_view().drop_last() == old(
                    st,
                ).stack_view()))
                &&& (r == Ok::<u64, VmError>(fuel) || r == Err::<u64, VmError>(
                    VmError::InvalidHandle,
                ))
            }
        }),
    decreases fuel, 0int,
{
    let ghost s0 = st_model(*old(st));
    let ghost env = env_of(modules@, dymodules@);
    let ghost argsv = vals_view(args@);
    match lookup_module(modules, module) {
        Some(m) => match m.get_function(function) {
            Some(f) => match f {
                Function::Code { code, .. } => {
                    if fuel == 0 {
                        return Err(VmError::OutOfFuel);
                    }
                    st.local_vars.push(args);
                    let ghost pushed = *st;
                    proof {
                        assert(pushed.local_vars@ == old(st).local_vars@.push(args));
                        assert(pushed.frames_view().len() == old(st).frames_view().len() + 1);
                        assert(pushed.frames_view() =~= s0.frames.push(argsv));
                        assert(st_model(pushed) =~= EvalState { frames: s0.frames.push(argsv), ..s0 });
                    }
                    let r = exec_seq(st, modules, dymodules, host, fpu, code, fuel - 1);
                    let ghost mid = *st;
                    st.local_vars.pop();
                    proof {
                        assert(st.local_vars@ =~= mid.local_vars@.drop_last());
                        assert(st.frames_view().len() == old(st).frames_view().len());
                        assert forall|i: int|
                            0 <= i < old(st).frames_view().len() implies st.frames_view()[i]
                            == old(st).frames_view()[i] by {
                            assert(mid.frames_view()[i] == pushed.frames_view()[i]);
                            assert(pushed.local_vars@[i] == old(st).local_vars@[i]);
                            assert(st.local_vars@[i] == mid.local_vars@[i]);
                        }
                        assert(st.frames_view() =~= old(st).frames_view());
                        assert(st.frames_view() =~= st_model(mid).frames.drop_last());
                        assert(st_model(*st) =~= EvalState {
                            frames: st_model(mid).frames.drop_last(),
                            ..st_model(mid)
                        });
                    }
                    match r {
                        Ok(rem) => Ok(rem),
                        Err(e) => Err(e),
                    }
                },
                Function::Native { .. } => {
                    match host.call_native(module, function, args) {
                        Some(v) => {
                            match &v {
                                Value::Object(h) => {
                                    if *h >= st.heap.len() {
                                        return Err(VmError::InvalidHandle);
                                    }
                                },
                                _ => {},
                            }
                            st.push_val(v);
                            proof {
                                assert(st.stack_view().drop_last() =~= old(st).stack_view());
                            }
                        },
                        None => {},
                    }
                    Ok(fuel)
                },
            },
            None => Err(VmError::UnknownFunction),
        },
        None => match lookup_dymodule(dymodules, module) {
            Some(dm) => {
                if dm.has_bound(function) {
                    match host.call_native(module, function, args) {
                        Some(v) => {
                            match &v {
                                Value::Object(h) => {
                                    if *h >= st.heap.len() {
                                        return Err(VmError::InvalidHandle);
                                    }
                                },
                                _ => {},
                            }
                            st.push_val(v);
                            proof {
                                assert(st.stack_view().drop_last() =~= old(st).stack_view());
                            }
                        },
                        None => {},
                    }
                    Ok(fuel)
                } else {
                    Err(VmError::UnknownFunction)
                }
            },
            None => Err(VmError::UnknownModule),
        },
    }
}

/// Executes a diagnostic, constant, locals or allocation instruction.
#[verifier::rlimit(100)]
fn exec_data_mem(st: &mut VmState, inst: &Instruction) -> (r: Result<(), VmError>)
    requires
        inst is Dump || inst is Hi || inst is PushConstString || inst is PushConstInteger
            || inst is PushConstFloat || inst is PushConstBoolean || inst is GetLocal
            || inst is SetLocal || inst is ReserveLocal || inst is Allocate,
    ensures
        final(st).frames_view().len() == old(st).frames_view().len(),
        forall|i: int|
            0 <= i < old(st).frames_view().len() - 1 ==> final(st).frames_view()[i] == old(
                st,
            ).frames_view()[i],
        final(st).heap_view().len() >= old(st).heap_view().len(),
        forall|i: int|
            0 <= i < old(st).heap_view().len() ==> shape_eq(
                old(st).heap_view()[i],
                #[trigger] final(st).heap_view()[i],
            ),
        final(st).call_break == old(st).call_break,
        final(st).call_continue == old(st).call_continue,
        final(st).call_return == old(st).call_return,
        straight_eff(inst_view(*inst)) is Some && r is Ok ==> final(st).stack_view().len() == old(
            st,
        ).stack_view().len() + straight_eff(inst_view(*inst))->0,
        ({
            match eval_data(st_model(*old(st)), inst_view(*inst)) {
                Option::None => true,
                Option::Some(Ok(s2)) => r is Ok && st_model(*final(st)) == s2,
                Option::Some(Err(e)) => r == Err::<(), VmError>(e),
            }
        }),
{
    let ghost s0 = st_model(*old(st));
    match inst {
        Instruction::Dump => {
            st.step_dump();
            proof {
                assert(eval_data(s0, inst_view(*inst)) == Some(
                    Ok::<EvalState, VmError>(st_model(*st)),
                ));
            }
        },
        Instruction::Hi => {
            st.events.push(VmEvent::Greeting);
            proof {
                assert(eval_data(s0, inst_view(*inst)) == Some(
                    Ok::<EvalState, VmError>(st_model(*st)),
                ));
            }
        },
        Instruction::PushConstString { value } => {
            st.push_val(Value::String(value.clone()));
            proof {
                assert(eval_data(s0, inst_view(*inst)) == Some(
                    Ok::<EvalState, VmError>(st_model(*st)),
                ));
            }
        },
        Instruction::PushConstInteger { value } => {
            st.push_val(Value::Integer(*value));
            proof {
                assert(eval_data(s0, inst_view(*inst)) == Some(
                    Ok::<EvalState, VmError>(st_model(*st)),
                ));
            }
        },
        Instruction::PushConstFloat { bits } => {
            st.push_val(Value::Float(*bits));
            proof {
                assert(eval_data(s0, inst_view(*inst)) == Some(
                    Ok::<EvalState, VmError>(st_model(*st)),
                ));
            }
        },
        Instruction::PushConstBoolean { value } => {
            st.push_val(Value::Boolean(*value));
            proof {
                assert(eval_data(s0, inst_view(*inst)) == Some(
                    Ok::<EvalState, VmError>(st_model(*st)),
                ));
            }
        },
        Instruction::GetLocal { index } => {
            match st.step_get_local(*index) {
                Ok(()) => {
            proof {
                if eval_data(s0, inst_view(*inst)) is Some {
                    assert(eval_data(s0, inst_view(*inst)) == Some(
                        Ok::<EvalState, VmError>(st_model(*st)),
                    ));
                }
            }
                },
                Err(e) => {
                    return Err(e);
                },
            }
        },
        Instruction::SetLocal { index } => {
            match st.step_set_local(*index) {
                Ok(()) => {
                    proof {
                        assert(st.frames_view() =~= s0.frames.update(
                            s0.frames.len() - 1,
                            s0.frames.last().update(*index as int, s0.stack.last()),
                        ));
                        assert(eval_data(s0, inst_view(*inst)) == Some(
                            Ok::<EvalState, VmError>(st_model(*st)),
                        ));
                    }
                },
                Err(e) => {
                    return Err(e);
                },
            }
        },
        Instruction::ReserveLocal { size } => {
            match st.step_reserve(*size) {
                Ok(()) => {
                    proof {
                        assert(st.frames_view() =~= s0.frames.update(
                            s0.frames.len() - 1,
                            resize_v(s0.frames.last(), *size as nat),
                        ));
                        assert(eval_data(s0, inst_view(*inst)) == Some(
                            Ok::<EvalState, VmError>(st_model(*st)),
                        ));
                    }
                },
                Err(e) => {
                    return Err(e);
                },
            }
        },
        Instruction::Allocate { fields } => {
            st.step_allocate(*fields);
            proof {
                assert(st.heap_view() =~= s0.heap.push(
                    ObjectV::Values(Seq::new(*fields as nat, |i: int| ValueV::Null)),
                ));
                assert(eval_data(s0, inst_view(*inst)) == Some(
                    Ok::<EvalState, VmError>(st_model(*st)),
                ));
            }
        },
        _ => {},
    }
    Ok(())
}

/// Executes an object-field, stack-move, arithmetic or comparison
/// instruction.
#[verifier::rlimit(100)]
fn exec_data_ops<F: FloatUnit>(st: &mut VmState, fpu: &F, inst: &Instruction) -> (r: Result<
    (),
    VmError,
>)
    requires
        inst is GetField || inst is SetField || inst is Pop || inst is Dup || inst is Add
            || inst is Sub || inst is Mul || inst is Div || inst is Inc || inst is Dec
            || inst is Eq || inst is Ne || inst is Lt || inst is Le || inst is Gt || inst is Ge,
    ensures
        final(st).frames_view().len() == old(st).frames_view().len(),
        forall|i: int|
            0 <= i < old(st).frames_view().len() - 1 ==> final(st).frames_view()[i] == old(
                st,
            ).frames_view()[i],
        final(st).heap_view().len() >= old(st).heap_view().len(),
        forall|i: int|
            0 <= i < old(st).heap_view().len() ==> shape_eq(
                old(st).heap_view()[i],
                #[trigger] final(st).heap_view()[i],
            ),
        final(st).call_break == old(st).call_break,
        final(st).call_continue == old(st).call_continue,
        final(st).call_return == old(st).call_return,
        straight_eff(inst_view(*inst)) is Some && r is Ok ==> final(st).stack_view().len() == old(
            st,
        ).stack_view().len() + straight_eff(inst_view(*inst))->0,
        ({
            match eval_data(st_model(*old(st)), inst_view(*inst)) {
                Option::None => true,
                Option::Some(Ok(s2)) => r is Ok && st_model(*final(st)) == s2,
                Option::Some(Err(e)) => r == Err::<(), VmError>(e),
            }
        }),
{
    let ghost s0 = st_model(*old(st));
    match inst {
        Instruction::GetField { index } => {
            match st.step_get_field(*index) {
                Ok(()) => {
            proof {
                if eval_data(s0, inst_view(*inst)) is Some {
                    assert(eval_data(s0, inst_view(*inst)) == Some(
                        Ok::<EvalState, VmError>(st_model(*st)),
                    ));
                }
            }
                },
                Err(e) => {
                    return Err(e);
                },
            }
        },
        Instruction::SetField { index } => {
            match st.step_set_field(*index) {
                Ok(()) => {
            proof {
                if eval_data(s0, inst_view(*inst)) is Some {
                    assert(eval_data(s0, inst_view(*inst)) == Some(
                        Ok::<EvalState, VmError>(st_model(*st)),
                    ));
                }
            }
                },
                Err(e) => {
                    return Err(e);
                },
            }
        },
        Instruction::Pop => {
            match st.pop_val() {
                Ok(_) => {
            proof {
                assert(eval_data(s0, inst_view(*inst)) == Some(
                    Ok::<EvalState, VmError>(st_model(*st)),
                ));
            }
                },
                Err(e) => {
                    return Err(e);
                },
            }
        },
        Instruction::Dup => {
            match st.step_dup() {
                Ok(()) => {
            proof {
                if eval_data(s0, inst_view(*inst)) is Some {
                    assert(eval_data(s0, inst_view(*inst)) == Some(
                        Ok::<EvalState, VmError>(st_model(*st)),
                    ));
                }
            }
                },
                Err(e) => {
                    return Err(e);
                },
            }
        },
        Instruction::Add => {
            match st.step_binary(fpu, BinOp::Add) {
                Ok(()) => {
            proof {
                if eval_data(s0, inst_view(*inst)) is Some {
                    assert(eval_data(s0, inst_view(*inst)) == Some(
                        Ok::<EvalState, VmError>(st_model(*st)),
                    ));
                }
            }
                },
                Err(e) => {
                    return Err(e);
                },
            }
        },
        Instruction::Sub => {
            match st.step_binary(fpu, BinOp::Sub) {
                Ok(()) => {
            proof {
                if eval_data(s0, inst_view(*inst)) is Some {
                    assert(eval_data(s0, inst_view(*inst)) == Some(
                        Ok::<EvalState, VmError>(st_model(*st)),
                    ));
                }
            }
                },
                Err(e) => {
                    return Err(e);
                },
            }
        },
        Instruction::Mul => {
            match st.step_binary(fpu, BinOp::Mul) {
                Ok(()) => {
            proof {
                if eval_data(s0, inst_view(*inst)) is Some {
                    assert(eval_data(s0, inst_view(*inst)) == Some(
                        Ok::<EvalState, VmError>(st_model(*st)),
                    ));
                }
            }
                },
                Err(e) => {
                    return Err(e);
                },
            }
        },
        Instruction::Div => {
            match st.step_binary(fpu, BinOp::Div) {
                Ok(()) => {
            proof {
                if eval_data(s0, inst_view(*inst)) is Some {
                    assert(eval_data(s0, inst_view(*inst)) == Some(
                        Ok::<EvalState, VmError>(st_model(*st)),
                    ));
                }
            }
                },
                Err(e) => {
                    return Err(e);
                },
            }
        },
        Instruction::Inc => {
            match st.step_unary(fpu, true) {
                Ok(()) => {
            proof {
                if eval_data(s0, inst_view(*inst)) is Some {
                    assert(eval_data(s0, inst_view(*inst)) == Some(
                        Ok::<EvalState, VmError>(st_model(*st)),
                    ));
                }
            }
                },
                Err(e) => {
                    return Err(e);
                },
            }
        },
        Instruction::Dec => {
            match st.step_unary(fpu, false) {
                Ok(()) => {
            proof {
                if eval_data(s0, inst_view(*inst)) is Some {
                    assert(eval_data(s0, inst_view(*inst)) == Some(
                        Ok::<EvalState, VmError>(st_model(*st)),
                    ));
                }
            }
                },
                Err(e) => {
                    return Err(e);
                },
            }
        },
        Instruction::Eq => {
            match st.step_binary(fpu, BinOp::Eq) {
                Ok(()) => {
            proof {
                if eval_data(s0, inst_view(*inst)) is Some {
                    assert(eval_data(s0, inst_view(*inst)) == Some(
                        Ok::<EvalState, VmError>(st_model(*st)),
                    ));
                }
            }
                },
                Err(e) => {
                    return Err(e);
                },
            }
        },
        Instruction::Ne => {
            match st.step_binary(fpu, BinOp::Ne) {
                Ok(()) => {
            proof {
                if eval_data(s0, inst_view(*inst)) is Some {
                    assert(eval_data(s0, inst_view(*inst)) == Some(
                        Ok::<EvalState, VmError>(st_model(*st)),
                    ));
                }
            }
                },
                Err(e) => {
                    return Err(e);
                },
            }
        },
        Instruction::Lt => {
            match st.step_binary(fpu, BinOp::Lt) {
                Ok(()) => {
            proof {
                if eval_data(s0, inst_view(*inst)) is Some {
                    assert(eval_data(s0, inst_view(*inst)) == Some(
                        Ok::<EvalState, VmError>(st_model(*st)),
                    ));
                }
            }
                },
                Err(e) => {
                    return Err(e);
                },
            }
        },
        Instruction::Le => {
            match st.step_binary(fpu, BinOp::Le) {
                Ok(()) => {
            proof {
                if eval_data(s0, inst_view(*inst)) is Some {
                    assert(eval_data(s0, inst_view(*inst)) == Some(
                        Ok::<EvalState, VmError>(st_model(*st)),
                    ));
                }
            }
                },
                Err(e) => {
                    return Err(e);
                },
            }
        },
        Instruction::Gt => {
            match st.step_binary(fpu, BinOp::Gt) {
                Ok(()) => {
            proof {
                if eval_data(s0, inst_view(*inst)) is Some {
                    assert(eval_data(s0, inst_view(*inst)) == Some(
                        Ok::<EvalState, VmError>(st_model(*st)),
                    ));
                }
            }
                },
                Err(e) => {
                    return Err(e);
                },
            }
        },
        Instruction::Ge => {
            match st.step_binary(fpu, BinOp::Ge) {
                Ok(()) => {
            proof {
                if eval_data(s0, inst_view(*inst)) is Some {
                    assert(eval_data(s0, inst_view(*inst)) == Some(
                        Ok::<EvalState, VmError>(st_model(*st)),
                    ));
                }
            }
                },
                Err(e) => {
                    return Err(e);
                },
            }
        },
        _ => {},
    }
    Ok(())
}

/// Executes one data instruction: constants, locals, objects, stack
/// moves, arithmetic and comparisons. Control flow never reaches here.
fn exec_data_inst<F: FloatUnit>(st: &mut VmState, fpu: &F, inst: &Instruction) -> (r: Result<
    (),
    VmError,
>)
    requires
        !(inst is Call),
        !(inst is Then),
        !(inst is Loop),
        !(inst is Return),
        !(inst is Break),
        !(inst is Continue),
        !(inst is Fn),
        !(inst is Module),
        !(inst is LoadModule),
        !(inst is GetFunction),
        !(inst is Nop),
        !(inst is Version),
    ensures
        final(st).frames_view().len() == old(st).frames_view().len(),
        forall|i: int|
            0 <= i < old(st).frames_view().len() - 1 ==> final(st).frames_view()[i] == old(
                st,
            ).frames_view()[i],
        final(st).heap_view().len() >= old(st).heap_view().len(),
        forall|i: int|
            0 <= i < old(st).heap_view().len() ==> shape_eq(
                old(st).heap_view()[i],
                #[trigger] final(st).heap_view()[i],
            ),
        final(st).call_break == old(st).call_break,
        final(st).call_continue == old(st).call_continue,
        final(st).call_return == old(st).call_return,
        straight_eff(inst_view(*inst)) is Some && r is Ok ==> final(st).stack_view().len() == old(
            st,
        ).stack_view().len() + straight_eff(inst_view(*inst))->0,
        ({
            match eval_data(st_model(*old(st)), inst_view(*inst)) {
                Option::None => true,
                Option::Some(Ok(s2)) => r is Ok && st_model(*final(st)) == s2,
                Option::Some(Err(e)) => r == Err::<(), VmError>(e),
            }
        }),
{
    match inst {
        Instruction::GetField { .. } | Instruction::SetField { .. } | Instruction::Pop
            | Instruction::Dup | Instruction::Add | Instruction::Sub | Instruction::Mul
            | Instruction::Div | Instruction::Inc | Instruction::Dec | Instruction::Eq
            | Instruction::Ne | Instruction::Lt | Instruction::Le | Instruction::Gt
            | Instruction::Ge => exec_data_ops(st, fpu, inst),
        _ => exec_data_mem(st, inst),
    }
}

/// Executes one instruction. Control-flow instructions raise their flag in
/// the state; the caller exits its sequence when a flag is up.
#[verifier::rlimit(100)]
fn exec_inst<H: Host, F: FloatUnit>(
    st: &mut VmState,
    modules: &Vec<Module>,
    dymodules: &Vec<DyModule>,
    host: &mut H,
    fpu: &F,
    inst: &Instruction,
    fuel: u64,
) -> (r: Result<u64, VmError>)
    requires
        !old(st).call_break,
        !old(st).call_continue,
        !old(st).call_return,
    ensures
        final(st).frames_view().len() == old(st).frames_view().len(),
        forall|i: int|
            0 <= i < old(st).frames_view().len() - 1 ==> final(st).frames_view()[i] == old(
                st,
            ).frames_view()[i],
        final(st).heap_view().len() >= old(st).heap_view().len(),
        forall|i: int|
            0 <= i < old(st).heap_view().len() ==> shape_eq(
                old(st).heap_view()[i],
                #[trigger] final(st).heap_view()[i],
            ),
        r matches Ok(rem) ==> rem <= fuel,
        r is Ok ==> flags_ok(*final(st)),
        straight_eff(inst_view(*inst)) is Some && r is Ok ==> {
            &&& final(st).stack_view().len() == old(st).stack_view().len() + straight_eff(
                inst_view(*inst),
            )->0
            &&& final(st).call_break == old(st).call_break
            &&& final(st).call_continue == old(st).call_continue
            &&& final(st).call_return == old(st).call_return
        },
        ({
            match eval_inst(
                env_of(modules@, dymodules@),
                st_model(*old(st)),
                inst_view(*inst),
                fuel as nat,
            ) {
                Option::None => true,
                Option::Some(Ok((s2, f2))) => r matches Ok(rem) && st_model(*final(st)) == s2
                    && rem as nat == f2,
                Option::Some(Err(e)) => r == Err::<u64, VmError>(e),
            }
        }),
    decreases fuel, inst_size(inst_view(*inst)), 0int,
{
    let ghost s0 = st_model(*old(st));
    let ghost env = env_of(modules@, dymodules@);
    let mut fuel_left = fuel;
    match inst {
        Instruction::Nop => {},
        Instruction::Version { .. } => {},
        Instruction::Fn { .. } => {
            return Err(VmError::DeclarationAtRuntime);
        },
        Instruction::Module { .. } => {
            return Err(VmError::DeclarationAtRuntime);
        },
        Instruction::LoadModule { .. } => {
            return Err(VmError::DeclarationAtRuntime);
        },
        Instruction::GetFunction { .. } => {
            return Err(VmError::DeclarationAtRuntime);
        },
        Instruction::Call { module, function, param_count } => {
            proof {
                assert(straight_eff(inst_view(*inst)) is None);
            }
            let pc = *param_count as usize;
            if pc > st.stack.len() {
                return Err(VmError::StackUnderflow);
            }
            let split_at = st.stack.len() - pc;
            let args = st.stack.split_off(split_at);
            proof {
                assert(vals_view(args@) =~= s0.stack.subrange(
                    split_at as int,
                    s0.stack.len() as int,
                ));
                assert(st_model(*st) =~= EvalState {
                    stack: s0.stack.subrange(0, split_at as int),
                    ..s0
                });
            }
            let ghost s1 = st_model(*st);
            let r = do_call(
                st,
                modules,
                dymodules,
                host,
                fpu,
                module.as_str(),
                function.as_str(),
                args,
                fuel_left,
            );
            let ghost s2 = st_model(*st);
            match r {
                Ok(rem) => {
                    fuel_left = rem;
                },
                Err(e) => {
                    return Err(e);
                },
            }
            st.call_return = false;
            st.call_continue = false;
            st.call_break = false;
            proof {
                assert(st_model(*st) =~= clear_v(s2));
            }
        },
        Instruction::Return => {
            st.call_return = true;
            proof {
                assert(straight_eff(inst_view(*inst)) is None);
                assert(st_model(*st) =~= EvalState { ret: true, ..s0 });
            }
        },
        Instruction::Break => {
            st.call_break = true;
            proof {
                assert(straight_eff(inst_view(*inst)) is None);
                assert(st_model(*st) =~= EvalState { brk: true, ..s0 });
            }
        },
        Instruction::Continue => {
            st.call_continue = true;
            proof {
                assert(straight_eff(inst_view(*inst)) is None);
                assert(st_model(*st) =~= EvalState { cont: true, ..s0 });
            }
        },
        Instruction::Then { then_block, else_block } => {
            let c = match st.pop_val() {
                Ok(v) => v,
                Err(e) => {
                    return Err(e);
                },
            };
            let bv = match c {
                Value::Boolean(bv) => bv,
                _ => {
                    return Err(VmError::TypeMismatch);
                },
            };
            proof {
                assert(st_model(*st) =~= EvalState { stack: s0.stack.drop_last(), ..s0 });
            }
            let r = if bv {
                exec_seq(st, modules, dymodules, host, fpu, then_block, fuel_left)
            } else {
                exec_seq(st, modules, dymodules, host, fpu, else_block, fuel_left)
            };
            match r {
                Ok(rem) => {
                    fuel_left = rem;
                },
                Err(e) => {
                    return Err(e);
                },
            }
            proof {
                assert(straight_eff(inst_view(*inst)) is None);
            }
        },
        Instruction::Loop { block } => {
            let ghost bv = code_view(block@);
            loop
                invariant
                    inst is Loop,
                    inst_view(*inst) == (InstrV::Loop { block: bv }),
                    bv == code_view(block@),
                    straight_eff(inst_view(*inst)) is None,
                    fuel_left <= fuel,
                    env == env_of(modules@, dymodules@),
                    s0 == st_model(*old(st)),
                    eval_loop(env, s0, bv, fuel as nat) == eval_loop(
                        env,
                        st_model(*st),
                        bv,
                        fuel_left as nat,
                    ) || eval_loop(env, s0, bv, fuel as nat) is None,
                    st.frames_view().len() == old(st).frames_view().len(),
                    forall|i: int|
                        0 <= i < old(st).frames_view().len() - 1 ==> st.frames_view()[i] == old(
                            st,
                        ).frames_view()[i],
                    st.heap_view().len() >= old(st).heap_view().len(),
                    forall|i: int|
                        0 <= i < old(st).heap_view().len() ==> shape_eq(
                            old(st).heap_view()[i],
                            #[trigger] st.heap_view()[i],
                        ),
                decreases fuel_left,
            {
                let ghost head = st_model(*st);
                let ghost fuel_head = fuel_left as nat;
                let ghost lhs = eval_loop(env, s0, bv, fuel as nat);
                if fuel_left == 0 {
                    proof {
                        if lhs is Some {
                            assert(eval_loop(env, head, bv, 0nat) == Some(Err::<
                                (EvalState, nat),
                                VmError,
                            >(VmError::OutOfFuel)));
                        }
                    }
                    return Err(VmError::OutOfFuel);
                }
                fuel_left = fuel_left - 1;
                let r = exec_seq(st, modules, dymodules, host, fpu, block, fuel_left);
                let ghost s1 = st_model(*st);
                proof {
                    if lhs is Some {
                        assert(eval_rest(env, clear_v(head), bv, (fuel_head - 1) as nat)
                            == eval_seq(env, head, bv, (fuel_head - 1) as nat));
                    }
                }
                match r {
                    Ok(rem) => {
                        fuel_left = rem;
                    },
                    Err(e) => {
                        proof {
                            if lhs is Some {
                                assert(eval_loop(env, head, bv, fuel_head) == Some(Err::<
                                    (EvalState, nat),
                                    VmError,
                                >(e)));
                            }
                        }
                        return Err(e);
                    },
                }
                proof {
                    if lhs is Some {
                        assert(eval_rest(env, clear_v(head), bv, (fuel_head - 1) as nat) == Some(
                            Ok::<(EvalState, nat), VmError>((s1, fuel_left as nat)),
                        ));
                    }
                }
                if st.call_break {
                    st.call_break = false;
                    proof {
                        assert(straight_eff(inst_view(*inst)) is None);
                        assert(st_model(*st) =~= EvalState { brk: false, ..s1 });
                        if lhs is Some {
                            assert(eval_loop(env, head, bv, fuel_head) == Some(Ok::<
                                (EvalState, nat),
                                VmError,
                            >((st_model(*st), fuel_left as nat))));
                        }
                    }
                    return Ok(fuel_left);
                }
                if st.call_continue {
                    st.call_continue = false;
                    proof {
                        assert(st_model(*st) =~= EvalState { cont: false, ..s1 });
                        if lhs is Some {
                            assert(eval_loop(env, head, bv, fuel_head) == eval_loop(
                                env,
                                st_model(*st),
                                bv,
                                fuel_left as nat,
                            ));
                        }
                    }
                } else if st.call_return {
                    proof {
                        assert(straight_eff(inst_view(*inst)) is None);
                        if lhs is Some {
                            assert(eval_loop(env, head, bv, fuel_head) == Some(Ok::<
                                (EvalState, nat),
                                VmError,
                            >((st_model(*st), fuel_left as nat))));
                        }
                    }
                    return Ok(fuel_left);
                } else {
                    proof {
                        if lhs is Some {
                            assert(eval_loop(env, head, bv, fuel_head) == eval_loop(
                                env,
                                st_model(*st),
                                bv,
                                fuel_left as nat,
                            ));
                        }
                    }
                }
            }
        },
        _ => {
            match exec_data_inst(st, fpu, inst) {
                Ok(()) => {},
                Err(e) => {
                    return Err(e);
                },
            }
        },
    }
    Ok(fuel_left)
}

/// Executes one instruction sequence against the machine state. Entry clears
/// the three control-flow flags; `Return`, `Break` and `Continue` set theirs
/// and exit the sequence early.
#[verifier::rlimit(100)]
fn exec_seq<H: Host, F: FloatUnit>(
    st: &mut VmState,
    modules: &Vec<Module>,
    dymodules: &Vec<DyModule>,
    host: &mut H,
    fpu: &F,
    code: &Code,
    fuel: u64,
) -> (r: Result<u64, VmError>)
    ensures
        final(st).frames_view().len() == old(st).frames_view().len(),
        forall|i: int|
            0 <= i < old(st).frames_view().len() - 1 ==> final(st).frames_view()[i] == old(
                st,
            ).frames_view()[i],
        final(st).heap_view().len() >= old(st).heap_view().len(),
        forall|i: int|
            0 <= i < old(st).heap_view().len() ==> shape_eq(
                old(st).heap_view()[i],
                #[trigger] final(st).heap_view()[i],
            ),
        r matches Ok(rem) ==> rem <= fuel,
        r is Ok ==> flags_ok(*final(st)),
        straightline(code_view(code@)) && r is Ok ==> {
            &&& final(st).stack_view().len() == old(st).stack_view().len() + eff_sum(
                code_view(code@),
            )
            &&& !final(st).call_break && !final(st).call_continue && !final(st).call_return
        },
        ({
            match eval_seq(
                env_of(modules@, dymodules@),
                st_model(*old(st)),
                code_view(code@),
                fuel as nat,
            ) {
                Option::None => true,
                Option::Some(Ok((s2, f2))) => r matches Ok(rem) && st_model(*final(st)) == s2
                    && rem as nat == f2,
                Option::Some(Err(e)) => r == Err::<u64, VmError>(e),
            }
        }),
    decreases fuel, code_size(code_view(code@)), 1int,
{
    st.call_break = false;
    st.call_continue = false;
    st.call_return = false;
    let ghost cv = code_view(code@);
    let ghost env = env_of(modules@, dymodules@);
    let ghost s0c = st_model(*st);
    proof {
        lemma_code_view(code@);
        assert(cv.subrange(0, 0) =~= Seq::<InstrV>::empty());
        assert(s0c =~= clear_v(st_model(*old(st))));
        assert(cv.subrange(0, cv.len() as int) =~= cv);
    }
    let n = code.len();
    let mut fuel_left = fuel;
    let mut idx: usize = 0;
    while idx < n
        invariant
            idx <= n,
            n == code@.len(),
            cv == code_view(code@),
            cv.len() == n,
            forall|j: int| 0 <= j < n ==> cv[j] == inst_view(code@[j]),
            fuel_left <= fuel,
            !st.call_break && !st.call_continue && !st.call_return,
            st.frames_view().len() == old(st).frames_view().len(),
            forall|i: int|
                0 <= i < old(st).frames_view().len() - 1 ==> st.frames_view()[i] == old(
                    st,
                ).frames_view()[i],
            st.heap_view().len() >= old(st).heap_view().len(),
            forall|i: int|
                0 <= i < old(st).heap_view().len() ==> shape_eq(
                    old(st).heap_view()[i],
                    #[trigger] st.heap_view()[i],
                ),
            straightline(cv) ==> st.stack_view().len() == old(st).stack_view().len() + eff_sum(
                cv.subrange(0, idx as int),
            ),
            env == env_of(modules@, dymodules@),
            s0c == clear_v(st_model(*old(st))),
            eval_rest(env, s0c, cv, fuel as nat) == eval_rest(
                env,
                st_model(*st),
                cv.subrange(idx as int, n as int),
                fuel_left as nat,
            ) || eval_rest(env, s0c, cv, fuel as nat) is None,
        decreases n - idx,
    {
        let ghost tail = cv.subrange(idx as int, n as int);
        let ghost pre_model = st_model(*st);
        let ghost pre_fuel = fuel_left as nat;
        proof {
            assert(cv[idx as int] == inst_view(code@[idx as int]));
            lemma_code_size_index(cv, idx as int);
            assert(tail[0] == cv[idx as int]);
            assert(tail.drop_first() =~= cv.subrange(idx + 1, n as int));
            lemma_inst_size_min(tail[0]);
        }
        let r = exec_inst(st, modules, dymodules, host, fpu, &code[idx], fuel_left);
        let ghost lhs = eval_rest(env, s0c, cv, fuel as nat);
        match r {
            Ok(rem) => {
                fuel_left = rem;
            },
            Err(e) => {
                proof {
                    if lhs is Some {
                        assert(eval_inst(env, pre_model, tail[0], pre_fuel) == Some(Err::<
                            (EvalState, nat),
                            VmError,
                        >(e)));
                        assert(eval_rest(env, pre_model, tail, pre_fuel) == Some(Err::<
                            (EvalState, nat),
                            VmError,
                        >(e)));
                    }
                }
                return Err(e);
            },
        }
        proof {
            if lhs is Some {
                assert(eval_inst(env, pre_model, tail[0], pre_fuel) == Some(Ok::<
                    (EvalState, nat),
                    VmError,
                >((st_model(*st), fuel_left as nat))));
            }
        }
        if st.call_break || st.call_continue || st.call_return {
            proof {
                if straightline(cv) {
                    assert(straight_eff(cv[idx as int]) is Some);
                }
                if lhs is Some {
                    assert(eval_rest(env, pre_model, tail, pre_fuel) == Some(Ok::<
                        (EvalState, nat),
                        VmError,
                    >((st_model(*st), fuel_left as nat))));
                }
            }
            return Ok(fuel_left);
        }
        idx = idx + 1;
        proof {
            if straightline(cv) {
                assert(straight_eff(cv[idx - 1]) is Some);
                lemma_eff_sum_push(cv.subrange(0, idx - 1), cv[idx - 1]);
                assert(cv.subrange(0, idx as int) =~= cv.subrange(0, idx - 1).push(cv[idx - 1]));
            }
            if lhs is Some {
                assert(code_size(tail) == inst_size(tail[0]) + code_size(tail.drop_first()));
                assert(eval_rest(env, pre_model, tail, pre_fuel) == eval_rest(
                    env,
                    st_model(*st),
                    cv.subrange(idx as int, n as int),
                    fuel_left as nat,
                ));
            }
        }
    }
    proof {
        assert(cv.subrange(0, n as int) =~= cv);
        assert(cv.subrange(n as int, n as int) =~= Seq::<InstrV>::empty());
    }
    Ok(fuel_left)
}


impl VirtualMachine {
    pub fn new() -> (r: VirtualMachine)
        ensures
            r.state.stack_view() == Seq::<ValueV>::empty(),
            r.state.frames_view() == Seq::<Seq<ValueV>>::empty(),
            r.state.heap_view() == Seq::<ObjectV>::empty(),
            r.modules@ == Seq::<Module>::empty(),
            r.dymodules@ == Seq::<DyModule>::empty(),
            !r.state.call_break && !r.state.call_continue && !r.state.call_return,
    {
        let r = VirtualMachine {
            state: VmState {
                stack: Vec::new(),
                local_vars: Vec::new(),
                heap: Vec::new(),
                events: Vec::new(),
                call_break: false,
                call_continue: false,
                call_return: false,
            },
            modules: Vec::new(),
            dymodules: Vec::new(),
        };
        proof {
            assert(r.state.stack_view() =~= Seq::<ValueV>::empty());
            assert(r.state.frames_view() =~= Seq::<Seq<ValueV>>::empty());
            assert(r.state.heap_view() =~= Seq::<ObjectV>::empty());
        }
        r
    }

    /// Registers a static module; a later registration of the same name
    /// shadows the earlier one.
    pub fn add_module(&mut self, module: Module)
        ensures
            final(self).modules@ == old(self).modules@.push(module),
            final(self).dymodules == old(self).dymodules,
            final(self).state == old(self).state,
    {
        self.modules.push(module);
    }

    /// Registers a dynamic module's registry.
    pub fn add_dynamic_module(&mut self, module: DyModule)
        ensures
            final(self).dymodules@ == old(self).dymodules@.push(module),
            final(self).modules == old(self).modules,
            final(self).state == old(self).state,
    {
        self.dymodules.push(module);
    }

    /// Executes a code sequence. The result and the final state equal what
    /// the spec-level evaluator computes, wherever the run stays inside the
    /// modeled fragment (no native call, no floating-point result); the
    /// evaluator owes success exactly where no fault condition of the type
    /// rules arises and the fuel suffices. Whatever the host does, the
    /// registries never change, locals frames stay balanced with every
    /// caller's frame untouched, heap cells keep their kind and length, and a
    /// sequence of instructions with statically known effects moves the stack
    /// depth by exactly the sum of those effects.
    pub fn execute<H: Host, F: FloatUnit>(
        &mut self,
        code: &Code,
        host: &mut H,
        fpu: &F,
        fuel: u64,
    ) -> (r: Result<u64, VmError>)
        ensures
            final(self).modules == old(self).modules,
            final(self).dymodules == old(self).dymodules,
            final(self).state.frames_view().len() == old(self).state.frames_view().len(),
            forall|i: int|
                0 <= i < old(self).state.frames_view().len() - 1
                    ==> final(self).state.frames_view()[i] == old(self).state.frames_view()[i],
            final(self).state.heap_view().len() >= old(self).state.heap_view().len(),
            forall|i: int|
                0 <= i < old(self).state.heap_view().len() ==> shape_eq(
                    old(self).state.heap_view()[i],
                    #[trigger] final(self).state.heap_view()[i],
                ),
            r matches Ok(rem) ==> rem <= fuel,
            straightline(code_view(code@)) && r is Ok ==> {
                &&& final(self).state.stack_view().len() == old(self).state.stack_view().len()
                    + eff_sum(code_view(code@))
                &&& !final(self).state.call_break
                &&& !final(self).state.call_continue
                &&& !final(self).state.call_return
            },
            ({
                match eval_seq(
                    env_of(old(self).modules@, old(self).dymodules@),
                    st_model(old(self).state),
                    code_view(code@),
                    fuel as nat,
                ) {
                    Option::None => true,
                    Option::Some(Ok((s2, f2))) => r matches Ok(rem) && st_model(final(self).state)
                        == s2 && rem as nat == f2,
                    Option::Some(Err(e)) => r == Err::<u64, VmError>(e),
                }
            }),
    {
        exec_seq(&mut self.state, &self.modules, &self.dymodules, host, fpu, code, fuel)
    }

    /// Invokes a named function on the given arguments. For a code function
    /// the evaluator correspondence pins the whole outcome: the callee runs
    /// on a fresh locals frame equal to `args` (so its first argument is
    /// readable at local index zero), and the frame is popped afterwards. An
    /// unresolved module or function is owed its error before any host work.
    /// A native callee is host work: of it the contract states that the heap,
    /// the frames and the flags come back unchanged and at most one returned
    /// value is pushed. In every case the caller's locals frames come back
    /// exactly as they were: nothing a callee writes in its own frame is
    /// visible here afterwards.
    pub fn call<H: Host, F: FloatUnit>(
        &mut self,
        module: &str,
        name: &str,
        args: Vec<Value>,
        host: &mut H,
        fpu: &F,
        fuel: u64,
    ) -> (r: Result<u64, VmError>)
        ensures
            final(self).modules == old(self).modules,
            final(self).dymodules == old(self).dymodules,
            final(self).state.frames_view() == old(self).state.frames_view(),
            final(self).state.heap_view().len() >= old(self).state.heap_view().len(),
            forall|i: int|
                0 <= i < old(self).state.heap_view().len() ==> shape_eq(
                    old(self).state.heap_view()[i],
                    #[trigger] final(self).state.heap_view()[i],
                ),
            r matches Ok(rem) ==> rem <= fuel,
            ({
                match eval_call(
                    env_of(old(self).modules@, old(self).dymodules@),
                    st_model(old(self).state),
                    module@,
                    name@,
                    vals_view(args@),
                    fuel as nat,
                ) {
                    Option::None => true,
                    Option::Some(Ok((s2, f2))) => r matches Ok(rem) && st_model(final(self).state)
                        == s2 && rem as nat == f2,
                    Option::Some(Err(e)) => r == Err::<u64, VmError>(e),
                }
            }),
            ({
                let env = env_of(old(self).modules@, old(self).dymodules@);
                match find_mod(env.mods, module@) {
                    Option::Some(mv) => find_fn(mv.functions, name@) is None ==> r == Err::<
                        u64,
                        VmError,
                    >(VmError::UnknownFunction),
                    Option::None => match find_dymod(env.dys, module@) {
                        Option::Some(dm) => !has_import(dm.imports, name@) ==> r == Err::<
                            u64,
                            VmError,
                        >(VmError::UnknownFunction),
                        Option::None => r == Err::<u64, VmError>(VmError::UnknownModule),
                    },
                }
            }),
            ({
                let env = env_of(old(self).modules@, old(self).dymodules@);
                native_callee(env, module@, name@) ==> {
                    &&& final(self).state.heap_view() == old(self).state.heap_view()
                    &&& final(self).state.call_break == old(self).state.call_break
                    &&& final(self).state.call_continue == old(self).state.call_continue
                    &&& final(self).state.call_return == old(self).state.call_return
                    &&& (final(self).state.stack_view() == old(self).state.stack_view() || (
                    final(self).state.stack_view().len() == old(self).state.stack_view().len() + 1
                        && final(self).state.stack_view().drop_last() == old(
                        self,
                    ).state.stack_view()))
                    &&& (r == Ok::<u64, VmError>(fuel) || r == Err::<u64, VmError>(
                        VmError::InvalidHandle,
                    ))
                }
            }),
    {
        do_call(&mut self.state, &self.modules, &self.dymodules, host, fpu, module, name, args,
            fuel)
    }

    /// Whether a callable function exists: in a static module under the
    /// name, or among a dynamic module's bound imports.
    pub fn has_function(&self, module: &str, name: &str) -> (r: bool)
        ensures
            r == ({
                let mv = self.modules@.map_values(|m: Module| m@);
                let dv = self.dymodules@.map_values(|m: DyModule| m@);
                match find_mod(mv, module@) {
                    Some(m) => find_fn(m.functions, name@) is Some,
                    None => match find_dymod(dv, module@) {
                        Some(dm) => has_import(dm.imports, name@),
                        None => false,
                    },
                }
            }),
    {
        match lookup_module(&self.modules, module) {
            Some(m) => match m.get_function(name) {
                Some(_) => true,
                None => false,
            },
            None => match lookup_dymodule(&self.dymodules, module) {
                Some(dm) => dm.has_bound(name),
                None => false,
            },
        }
    }

    /// Retrieves a static module's function by name.
    pub fn get_function<'a>(&'a self, module: &str, name: &str) -> (r: Option<&'a Function>)
        ensures
            ({
                let mv = self.modules@.map_values(|m: Module| m@);
                match find_mod(mv, module@) {
                    Some(m) => match r {
                        Some(f) => find_fn(m.functions, name@) == Some(f@),
                        None => find_fn(m.functions, name@) is None,
                    },
                    None => r is None,
                }
            }),
    {
        match lookup_module(&self.modules, module) {
            Some(m) => m.get_function(name),
            None => None,
        }
    }
}

} // verus!
