//! The selection DAG of a function: its blocks, and in each the nodes of
//! its computation, kept in an arena and named by their positions.
use vstd::prelude::*;
use crate::machine::{FrameIndexInfo, MachineOpcode, MachineRegister};
use crate::types::{Type, Types};

verus! {

#[derive(Clone, Copy, PartialEq, Eq, Debug, Structural)]
pub enum CondKind {
    Eq,
    Le,
    Lt,
}

/// Whether condition `c` holds of `a` and `b`: equal, at most, less than.
pub open spec fn cond_holds(c: CondKind, a: int, b: int) -> bool {
    match c {
        CondKind::Eq => a == b,
        CondKind::Le => a <= b,
        CondKind::Lt => a < b,
    }
}

/// An immediate; a double is held by its bit pattern.
#[derive(Clone, Copy, PartialEq, Eq, Debug, Structural)]
pub enum ConstantKind {
    Int32(i32),
    Int64(i64),
    F64(u64),
}

/// The IR operations that instruction selection reads; `Unlowered` stands
/// for every other one, which selection leaves without an instruction.
#[derive(Clone, Copy, PartialEq, Eq, Debug, Structural)]
pub enum IRNodeKind {
    Entry,
    CopyToReg,
    Call,
    Phi,
    Rem,
    Setcc,
    Br,
    BrCond,
    Brcc,
    Ret,
    CopyToLiveOut,
    Unlowered,
}

#[derive(Clone, Copy, PartialEq, Eq, Debug, Structural)]
pub enum OperandNodeKind {
    Constant(ConstantKind),
    FrameIndex(FrameIndexInfo),
    /// A function, by its number.
    Address(usize),
    /// A DAG block, by its number.
    BasicBlock(usize),
    Register(MachineRegister),
    CondKind(CondKind),
}

#[derive(Clone, Copy, PartialEq, Eq, Debug, Structural)]
pub enum NodeKind {
    IR(IRNodeKind),
    MI(MachineOpcode),
    Operand(OperandNodeKind),
    /// No node: an operand that is left empty.
    Empty,
}

/// A result (`Def`) or operand (`Use`) register of an instruction, by its
/// position.
#[derive(Clone, Copy, PartialEq, Eq, Debug, Structural)]
pub enum DefOrUseReg {
    Def(usize),
    Use(usize),
}

pub struct DAGNode {
    pub kind: NodeKind,
    /// The operand nodes, by their positions in the arena.
    pub operand: Vec<usize>,
    pub ty: Type,
    /// The node that comes after this one in its block's chain.
    pub next: Option<usize>,
    /// For a machine node, the registers that its instruction ties: each
    /// result register to be allocated as the operand register paired
    /// with it.
    pub tie: Vec<(DefOrUseReg, DefOrUseReg)>,
}

pub struct DAGBasicBlock {
    pub pred: Vec<usize>,
    pub succ: Vec<usize>,
    /// The first node of the block's chain.
    pub entry: Option<usize>,
}

pub struct DAGFunction {
    /// The blocks, by their numbers, in layout order.
    pub dag_basic_blocks: Vec<usize>,
    pub dag_basic_block_arena: Vec<DAGBasicBlock>,
    pub node_arena: Vec<DAGNode>,
    /// The next virtual register number to hand out.
    pub vreg_gen: usize,
}

pub struct DAGModule {
    pub functions: Vec<DAGFunction>,
    pub types: Types,
}

} // verus!
