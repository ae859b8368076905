//! The machine-level representation that liveness analysis and instruction
//! selection read: functions made of basic blocks of instructions.
use vstd::prelude::*;
use rustc_hash::FxHashSet;
use crate::types::Type;

verus! {

#[derive(Clone, Copy, PartialEq, Eq, Debug, Structural)]
pub enum MachineOpcode {
    Phi,
    Copy,
    Call,
    RET,
    CDQ,
    IDIV,
    Seteq,
    Setle,
    Setlt,
    JMP,
    BrCond,
    CMPri,
    CMPrr,
    JE,
    JLE,
    JL,
    LEAr64m,
    MOVrr32,
    MOVri32,
    MOVrr64,
    MOVri64,
    MOVrm64,
    MOVSDrm64,
    MOVmr32,
    MOVmi32,
}

/// The physical registers that instruction selection names.
#[derive(Clone, Copy, PartialEq, Eq, Debug, Structural)]
pub enum PhysReg {
    AL,
    DIL,
    SIL,
    DL,
    CL,
    R8B,
    R9B,
    EAX,
    EDI,
    ESI,
    EDX,
    ECX,
    R8D,
    R9D,
    RAX,
    RDI,
    RSI,
    RDX,
    RCX,
    R8,
    R9,
    RBP,
    RSP,
    XMM0,
    XMM1,
    XMM2,
    XMM3,
    XMM4,
    XMM5,
    XMM6,
    XMM7,
}

/// A register operand: its virtual register number, the type of what it
/// holds, its width in bits and, once fixed, the physical register.
#[derive(Clone, Copy, PartialEq, Eq, Debug, Structural)]
pub struct MachineRegister {
    pub vreg: usize,
    pub ty: Type,
    pub bits: usize,
    pub phys: Option<PhysReg>,
}

/// An immediate operand; a double is held by its bit pattern.
#[derive(Clone, Copy, PartialEq, Eq, Debug, Structural)]
pub enum MachineConstant {
    Int32(i32),
    Int64(i64),
    F64(u64),
}

/// A stack slot operand, the type of what it holds and its width in bits.
#[derive(Clone, Copy, PartialEq, Eq, Debug, Structural)]
pub struct FrameIndexInfo {
    pub idx: usize,
    pub ty: Type,
    pub bits: usize,
}

#[derive(Clone, Copy, PartialEq, Eq, Debug, Structural)]
pub enum MachineOperand {
    Register(MachineRegister),
    Constant(MachineConstant),
    FrameIndex(FrameIndexInfo),
    /// The address of a function, by its number.
    Address(usize),
    /// A basic block, by its number.
    Branch(usize),
    Empty,
}

pub struct MachineInstr {
    pub opcode: MachineOpcode,
    pub def: Vec<MachineRegister>,
    pub operand: Vec<MachineOperand>,
    /// Registers written without being named as results.
    pub imp_def: Vec<MachineRegister>,
    /// Registers read without being named as operands.
    pub imp_use: Vec<MachineRegister>,
    /// Result registers that must be allocated as the given operand register.
    pub tie: Vec<(MachineRegister, MachineRegister)>,
    /// The block the instruction belongs to, by its number.
    pub parent: usize,
}

/// The virtual registers defined in a block, live on entry and live on exit.
pub struct LivenessInfo {
    pub def: FxHashSet<usize>,
    pub live_in: FxHashSet<usize>,
    pub live_out: FxHashSet<usize>,
}

pub struct MachineBasicBlock {
    /// The instructions, by their numbers, in order.
    pub iseq: Vec<usize>,
    /// The predecessor blocks, by their numbers.
    pub pred: Vec<usize>,
    /// The successor blocks, by their numbers.
    pub succ: Vec<usize>,
    pub liveness: LivenessInfo,
}

pub struct MachineFunction {
    /// The blocks, by their numbers, in layout order.
    pub basic_blocks: Vec<usize>,
    pub basic_block_arena: Vec<MachineBasicBlock>,
    pub instr_arena: Vec<MachineInstr>,
    /// The next virtual register number to hand out.
    pub vreg_gen: usize,
    /// The bytes of stack reserved for arguments passed on the stack.
    pub adjust_byte: usize,
}

pub struct MachineModule {
    pub functions: Vec<MachineFunction>,
}

impl MachineConstant {
    pub open spec fn spec_get_type(&self) -> Type {
        match self {
            MachineConstant::Int32(_) => Type::i32,
            MachineConstant::Int64(_) => Type::i64,
            MachineConstant::F64(_) => Type::F64,
        }
    }

    pub fn get_type(&self) -> (t: Type)
        ensures
            t == self.spec_get_type(),
    {
        match self {
            MachineConstant::Int32(_) => Type::i32,
            MachineConstant::Int64(_) => Type::i64,
            MachineConstant::F64(_) => Type::F64,
        }
    }

    pub open spec fn spec_size_in_bits(&self) -> usize {
        match self {
            MachineConstant::Int32(_) => 32,
            MachineConstant::Int64(_) => 64,
            MachineConstant::F64(_) => 64,
        }
    }

    pub fn size_in_bits(&self) -> (r: usize)
        ensures
            r == self.spec_size_in_bits(),
    {
        match self {
            MachineConstant::Int32(_) => 32,
            MachineConstant::Int64(_) => 64,
            MachineConstant::F64(_) => 64,
        }
    }
}

} // verus!

verus! {

/// What liveness analysis knows of one block: the registers it defines,
/// those live on entry and those live on exit.
#[verifier::ext_equal]
pub struct BlockLive {
    pub def: Set<usize>,
    pub live_in: Set<usize>,
    pub live_out: Set<usize>,
}

impl MachineFunction {
    pub open spec fn nblocks(&self) -> int {
        self.basic_block_arena@.len() as int
    }

    pub open spec fn block_live(&self, x: int) -> BlockLive {
        BlockLive {
            def: self.basic_block_arena@[x].liveness.def@,
            live_in: self.basic_block_arena@[x].liveness.live_in@,
            live_out: self.basic_block_arena@[x].liveness.live_out@,
        }
    }

    /// The liveness sets of all blocks, by block number.
    pub open spec fn live_state(&self) -> Seq<BlockLive> {
        Seq::new(self.basic_block_arena@.len(), |x: int| self.block_live(x))
    }

    /// The predecessor lists of all blocks, by block number.
    pub open spec fn graph(&self) -> Seq<Seq<usize>> {
        Seq::new(self.basic_block_arena@.len(), |x: int| self.basic_block_arena@[x].pred@)
    }

    /// Every block number that the function names is a block of it, and
    /// every instruction number an instruction of it.
    pub open spec fn wf(&self) -> bool {
        &&& forall|i: int|
            0 <= i < self.basic_blocks@.len() ==> #[trigger] self.basic_blocks@[i] < self.nblocks()
        &&& forall|x: int, j: int|
            0 <= x < self.nblocks() && 0 <= j < self.basic_block_arena@[x].pred@.len()
                ==> #[trigger] self.basic_block_arena@[x].pred@[j] < self.nblocks()
        &&& forall|x: int, j: int|
            0 <= x < self.nblocks() && 0 <= j < self.basic_block_arena@[x].iseq@.len()
                ==> #[trigger] self.basic_block_arena@[x].iseq@[j] < self.instr_arena@.len()
    }

    /// `other` has the same blocks, instructions and control flow; only
    /// liveness sets may differ.
    pub open spec fn same_shape(&self, other: &MachineFunction) -> bool {
        &&& self.basic_blocks@ == other.basic_blocks@
        &&& self.instr_arena@ == other.instr_arena@
        &&& self.basic_block_arena@.len() == other.basic_block_arena@.len()
        &&& forall|x: int|
            0 <= x < self.nblocks() ==> {
                &&& (#[trigger] self.basic_block_arena@[x]).iseq@ == other.basic_block_arena@[x].iseq@
                &&& self.basic_block_arena@[x].pred@ == other.basic_block_arena@[x].pred@
                &&& self.basic_block_arena@[x].succ@ == other.basic_block_arena@[x].succ@
            }
    }
}

} // verus!

verus! {

/// The code of a function: its layout, the instructions of each block and
/// the instructions themselves.
pub struct CodeView {
    pub layout: Seq<usize>,
    pub iseqs: Seq<Seq<usize>>,
    pub instrs: Seq<MachineInstr>,
}

impl MachineFunction {
    pub open spec fn code(&self) -> CodeView {
        CodeView {
            layout: self.basic_blocks@,
            iseqs: Seq::new(self.basic_block_arena@.len(), |x: int| self.basic_block_arena@[x].iseq@),
            instrs: self.instr_arena@,
        }
    }
}

} // verus!

verus! {

/// The width in bits of a value of an atomic type whose width is fixed:
/// `i8`, `i32`, `i64` and `f64`.
pub open spec fn type_width(t: Type) -> Option<usize> {
    match t {
        Type::i8 => Some(8),
        Type::i32 => Some(32),
        Type::i64 => Some(64),
        Type::F64 => Some(64),
        _ => None,
    }
}

/// A width recorded with a register or stack slot agrees with its type
/// where the type fixes one.
pub open spec fn width_ok(ty: Type, bits: usize) -> bool {
    match type_width(ty) {
        Some(w) => bits == w,
        None => true,
    }
}

impl MachineOperand {
    /// The width of a register or stack slot agrees with its type.
    pub open spec fn widths_ok(&self) -> bool {
        match self {
            MachineOperand::Register(r) => width_ok(r.ty, r.bits),
            MachineOperand::FrameIndex(f) => width_ok(f.ty, f.bits),
            _ => true,
        }
    }

    /// The type of what a register, constant or stack slot holds.
    pub open spec fn spec_get_type(&self) -> Option<Type> {
        match self {
            MachineOperand::Register(r) => Some(r.ty),
            MachineOperand::Constant(c) => Some(c.spec_get_type()),
            MachineOperand::FrameIndex(f) => Some(f.ty),
            _ => None,
        }
    }

    pub fn get_type(&self) -> (t: Option<Type>)
        ensures
            t == self.spec_get_type(),
    {
        match self {
            MachineOperand::Register(r) => Some(r.ty),
            MachineOperand::Constant(c) => Some(c.get_type()),
            MachineOperand::FrameIndex(f) => Some(f.ty),
            _ => None,
        }
    }
}

} // verus!

verus! {

/// What a set-on-condition instruction sets its result to after comparing
/// `a` with `b`: whether `a == b` (`Seteq`), `a <= b` (`Setle`) or `a < b`
/// (`Setlt`); `None` for any other instruction.
pub open spec fn set_result(op: MachineOpcode, a: int, b: int) -> Option<bool> {
    match op {
        MachineOpcode::Seteq => Some(a == b),
        MachineOpcode::Setle => Some(a <= b),
        MachineOpcode::Setlt => Some(a < b),
        _ => None,
    }
}

/// Whether a conditional jump after comparing `a` with `b` is taken:
/// `a == b` (`JE`), `a <= b` (`JLE`) or `a < b` (`JL`); `None` for any
/// other instruction.
pub open spec fn jump_taken(op: MachineOpcode, a: int, b: int) -> Option<bool> {
    match op {
        MachineOpcode::JE => Some(a == b),
        MachineOpcode::JLE => Some(a <= b),
        MachineOpcode::JL => Some(a < b),
        _ => None,
    }
}

} // verus!

verus! {

/// Instruction `op` loads operand `x` into a register: register to
/// register of 32 or 64 bits, an immediate of 32 or 64 bits, from a stack
/// slot, or a double with `MOVSD`.
pub open spec fn loads(op: MachineOpcode, x: MachineOperand) -> bool {
    let dbl = x.spec_get_type() == Some(Type::F64);
    match op {
        MachineOpcode::MOVrr32 => !dbl && (x matches MachineOperand::Register(r) && r.bits == 32),
        MachineOpcode::MOVrr64 => !dbl && (x matches MachineOperand::Register(r) && r.bits == 64),
        MachineOpcode::MOVri32 => x matches MachineOperand::Constant(MachineConstant::Int32(_)),
        MachineOpcode::MOVri64 => x matches MachineOperand::Constant(MachineConstant::Int64(_)),
        MachineOpcode::MOVrm64 => !dbl && x is FrameIndex,
        MachineOpcode::MOVSDrm64 => dbl,
        _ => false,
    }
}

/// Instruction `op` stores operand `x` to memory: a 32-bit register or a
/// 32-bit immediate.
pub open spec fn stores(op: MachineOpcode, x: MachineOperand) -> bool {
    match op {
        MachineOpcode::MOVmr32 => x matches MachineOperand::Register(r) && r.bits == 32,
        MachineOpcode::MOVmi32 => x matches MachineOperand::Constant(MachineConstant::Int32(_)),
        _ => false,
    }
}

/// Instruction `op` compares register `a` with `b`: an immediate
/// (`CMPri`) or a register (`CMPrr`).
pub open spec fn compares(op: MachineOpcode, a: MachineOperand, b: MachineOperand) -> bool {
    match op {
        MachineOpcode::CMPri => a is Register && b is Constant,
        MachineOpcode::CMPrr => a is Register && b is Register,
        _ => false,
    }
}

} // verus!
