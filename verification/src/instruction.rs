//! The instruction tree: the closed set of operations the machine understands,
//! recursive through function, module, conditional and loop bodies.

use vstd::prelude::*;

verus! {

/// One instruction of the machine.
///
/// `PushConstFloat` carries the raw IEEE-754 bit pattern of its operand: the
/// codec moves those four bytes verbatim, and only the host's floating-point
/// unit ever interprets them.
#[derive(Debug)]
pub enum Instruction {
    Nop,
    Version { major: u8, minor: u8, patch: u8 },
    Dump,
    Hi,
    Fn { name: String, code: Code },
    Call { module: String, function: String, param_count: u32 },
    PushConstString { value: String },
    PushConstInteger { value: i32 },
    PushConstFloat { bits: u32 },
    PushConstBoolean { value: bool },
    GetLocal { index: u32 },
    SetLocal { index: u32 },
    ReserveLocal { size: u32 },
    Allocate { fields: u32 },
    GetField { index: u32 },
    SetField { index: u32 },
    Pop,
    Dup,
    Add,
    Sub,
    Mul,
    Div,
    Inc,
    Dec,
    Eq,
    Ne,
    Lt,
    Le,
    Gt,
    Ge,
    Module { name: String, code: Code },
    LoadModule { name: String, code: Code },
    GetFunction { name: String, alias: Option<String> },
    Return,
    Then { then_block: Code, else_block: Code },
    Loop { block: Code },
    Break,
    Continue,
}

/// An ordered sequence of instructions: a program, a function body, a module
/// body, a conditional arm or a loop body.
pub type Code = Vec<Instruction>;

/// The mathematical model of one instruction: strings become sequences of
/// characters, nested code becomes a sequence of models.
pub enum InstrV {
    Nop,
    Version { major: u8, minor: u8, patch: u8 },
    Dump,
    Hi,
    Fn { name: Seq<char>, code: Seq<InstrV> },
    Call { module: Seq<char>, function: Seq<char>, param_count: u32 },
    PushConstString { value: Seq<char> },
    PushConstInteger { value: i32 },
    PushConstFloat { bits: u32 },
    PushConstBoolean { value: bool },
    GetLocal { index: u32 },
    SetLocal { index: u32 },
    ReserveLocal { size: u32 },
    Allocate { fields: u32 },
    GetField { index: u32 },
    SetField { index: u32 },
    Pop,
    Dup,
    Add,
    Sub,
    Mul,
    Div,
    Inc,
    Dec,
    Eq,
    Ne,
    Lt,
    Le,
    Gt,
    Ge,
    Module { name: Seq<char>, code: Seq<InstrV> },
    LoadModule { name: Seq<char>, code: Seq<InstrV> },
    GetFunction { name: Seq<char>, alias: Option<Seq<char>> },
    Return,
    Then { then_block: Seq<InstrV>, else_block: Seq<InstrV> },
    Loop { block: Seq<InstrV> },
    Break,
    Continue,
}

/// The model of one instruction.
pub open spec fn inst_view(i: Instruction) -> InstrV
    decreases i,
{
    match i {
        Instruction::Nop => InstrV::Nop,
        Instruction::Version { major, minor, patch } => InstrV::Version { major, minor, patch },
        Instruction::Dump => InstrV::Dump,
        Instruction::Hi => InstrV::Hi,
        Instruction::Fn { name, code } => InstrV::Fn { name: name@, code: code_view(code@) },
        Instruction::Call { module, function, param_count } => InstrV::Call {
            module: module@,
            function: function@,
            param_count,
        },
        Instruction::PushConstString { value } => InstrV::PushConstString { value: value@ },
        Instruction::PushConstInteger { value } => InstrV::PushConstInteger { value },
        Instruction::PushConstFloat { bits } => InstrV::PushConstFloat { bits },
        Instruction::PushConstBoolean { value } => InstrV::PushConstBoolean { value },
        Instruction::GetLocal { index } => InstrV::GetLocal { index },
        Instruction::SetLocal { index } => InstrV::SetLocal { index },
        Instruction::ReserveLocal { size } => InstrV::ReserveLocal { size },
        Instruction::Allocate { fields } => InstrV::Allocate { fields },
        Instruction::GetField { index } => InstrV::GetField { index },
        Instruction::SetField { index } => InstrV::SetField { index },
        Instruction::Pop => InstrV::Pop,
        Instruction::Dup => InstrV::Dup,
        Instruction::Add => InstrV::Add,
        Instruction::Sub => InstrV::Sub,
        Instruction::Mul => InstrV::Mul,
        Instruction::Div => InstrV::Div,
        Instruction::Inc => InstrV::Inc,
        Instruction::Dec => InstrV::Dec,
        Instruction::Eq => InstrV::Eq,
        Instruction::Ne => InstrV::Ne,
        Instruction::Lt => InstrV::Lt,
        Instruction::Le => InstrV::Le,
        Instruction::Gt => InstrV::Gt,
        Instruction::Ge => InstrV::Ge,
        Instruction::Module { name, code } => InstrV::Module {
            name: name@,
            code: code_view(code@),
        },
        Instruction::LoadModule { name, code } => InstrV::LoadModule {
            name: name@,
            code: code_view(code@),
        },
        Instruction::GetFunction { name, alias } => InstrV::GetFunction {
            name: name@,
            alias: match alias {
                Some(a) => Some(a@),
                None => None,
            },
        },
        Instruction::Return => InstrV::Return,
        Instruction::Then { then_block, else_block } => InstrV::Then {
            then_block: code_view(then_block@),
            else_block: code_view(else_block@),
        },
        Instruction::Loop { block } => InstrV::Loop { block: code_view(block@) },
        Instruction::Break => InstrV::Break,
        Instruction::Continue => InstrV::Continue,
    }
}

/// The model of a sequence of instructions.
pub open spec fn code_view(s: Seq<Instruction>) -> Seq<InstrV>
    decreases s,
{
    if s.len() == 0 {
        Seq::empty()
    } else {
        seq![inst_view(s[0])] + code_view(s.drop_first())
    }
}

impl View for Instruction {
    type V = InstrV;

    open spec fn view(&self) -> InstrV {
        inst_view(*self)
    }
}

/// `code_view` maps `inst_view` over the sequence, element by element.
pub broadcast proof fn lemma_code_view(s: Seq<Instruction>)
    ensures
        #[trigger] code_view(s).len() == s.len(),
        forall|i: int| 0 <= i < s.len() ==> code_view(s)[i] == inst_view(s[i]),
    decreases s.len(),
{
    if s.len() > 0 {
        lemma_code_view(s.drop_first());
    }
}

/// `code_view` distributes over concatenation.
pub proof fn lemma_code_view_add(s: Seq<Instruction>, t: Seq<Instruction>)
    ensures
        code_view(s + t) == code_view(s) + code_view(t),
    decreases s.len(),
{
    if s.len() == 0 {
        assert(s + t =~= t);
        assert(code_view(s) + code_view(t) =~= code_view(t));
    } else {
        lemma_code_view_add(s.drop_first(), t);
        assert((s + t).drop_first() =~= s.drop_first() + t);
        assert(seq![inst_view(s[0])] + (code_view(s.drop_first()) + code_view(t)) =~= (seq![
            inst_view(s[0]),
        ] + code_view(s.drop_first())) + code_view(t));
    }
}

/// `code_view` of one more instruction at the end.
pub proof fn lemma_code_view_push(s: Seq<Instruction>, i: Instruction)
    ensures
        code_view(s.push(i)) == code_view(s).push(inst_view(i)),
{
    lemma_code_view_add(s, seq![i]);
    assert(s.push(i) =~= s + seq![i]);
    assert(seq![i].drop_first() =~= Seq::<Instruction>::empty());
    assert(code_view(Seq::<Instruction>::empty()) == Seq::<InstrV>::empty());
    assert(seq![i][0] == i);
    assert(code_view(seq![i]) == seq![inst_view(seq![i][0])] + code_view(seq![i].drop_first()));
    assert(code_view(seq![i]) =~= seq![inst_view(i)]);
    assert(code_view(s) + seq![inst_view(i)] =~= code_view(s).push(inst_view(i)));
}

/// A structural size measure for the induction over instruction trees.
pub open spec fn inst_size(m: InstrV) -> nat
    decreases m,
{
    match m {
        InstrV::Fn { name, code } => 2 + code_size(code),
        InstrV::Module { name, code } => 2 + code_size(code),
        InstrV::LoadModule { name, code } => 2 + code_size(code),
        InstrV::Then { then_block, else_block } => 2 + code_size(then_block) + code_size(
            else_block,
        ),
        InstrV::Loop { block } => 2 + code_size(block),
        _ => 2,
    }
}

/// `inst_size`, summed over a sequence.
pub open spec fn code_size(ms: Seq<InstrV>) -> nat
    decreases ms,
{
    if ms.len() == 0 {
        0
    } else {
        inst_size(ms[0]) + code_size(ms.drop_first())
    }
}

/// No instruction has size below two.
pub proof fn lemma_inst_size_min(m: InstrV)
    ensures
        inst_size(m) >= 2,
{
}

/// `code_size` bounds each of its elements' sizes.
pub proof fn lemma_code_size_index(s: Seq<InstrV>, i: int)
    requires
        0 <= i < s.len(),
    ensures
        code_size(s) >= inst_size(s[i]),
    decreases i,
{
    if i > 0 {
        lemma_code_size_index(s.drop_first(), i - 1);
    }
}

} // verus!
