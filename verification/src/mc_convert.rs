//! Instruction selection's last step: converting the selection DAG of each
//! function into machine instructions, block by block, and choosing the
//! move instructions for operands.
use vstd::prelude::*;
use rustc_hash::FxHashMap;
use crate::dag::{cond_holds, CondKind, ConstantKind, DAGFunction, DAGModule, DAGNode, DefOrUseReg, IRNodeKind, NodeKind, OperandNodeKind};
use crate::fxhash::{fx_map_get, fx_map_insert, fx_map_new, vreg_set_new};
use crate::machine::{
    LivenessInfo, MachineBasicBlock, MachineConstant, MachineFunction, MachineInstr, MachineModule, MachineOpcode,
    MachineOperand, MachineRegister, PhysReg, compares, jump_taken, loads, set_result, stores,
};
use crate::register::{class_reg, new_class_reg, spec_ty2rc, ty2rc, RegisterClassKind};
use crate::types::{Type, Types};

verus! {

/// Maps DAG basic blocks to machine basic blocks, and DAG nodes to the
/// machine instructions made from them, by their numbers.
pub struct MIConverter {
    pub dag_bb_to_machine_bb: FxHashMap<usize, usize>,
    pub node_id_to_machine_inst_id: FxHashMap<usize, usize>,
}

/// The state of the conversion of one block: the DAG function, the
/// instruction arena of the machine function, the register each converted
/// node yields (if any), the current block and its instruction sequence,
/// the stack bytes that calls need and the virtual register counter.
pub struct ConversionInfo<'a> {
    pub cur_func: &'a DAGFunction,
    pub machine_inst_arena: Vec<MachineInstr>,
    pub dag_to_reg: FxHashMap<usize, Option<MachineRegister>>,
    pub cur_bb: usize,
    pub iseq: Vec<usize>,
    pub stack_adjust: usize,
    pub vreg_gen: usize,
}

impl MIConverter {
    pub fn new() -> (c: Self)
        ensures
            c.dag_bb_to_machine_bb@.dom().is_empty(),
            c.node_id_to_machine_inst_id@.dom().is_empty(),
    {
        MIConverter { dag_bb_to_machine_bb: fx_map_new(), node_id_to_machine_inst_id: fx_map_new() }
    }

    /// The machine block made from DAG block `dag_bb_id`, which must have
    /// been mapped.
    fn get_machine_bb(&self, dag_bb_id: usize) -> (r: usize)
        requires
            self.dag_bb_to_machine_bb@.contains_key(dag_bb_id),
        ensures
            r == self.dag_bb_to_machine_bb@[dag_bb_id],
    {
        *fx_map_get(&self.dag_bb_to_machine_bb, dag_bb_id).unwrap()
    }
}

impl<'a> ConversionInfo<'a> {
    /// Adds `inst` to the arena and appends its number to the current block.
    pub fn push_inst(&mut self, inst: MachineInstr) -> (id: usize)
        ensures
            id == old(self).machine_inst_arena@.len(),
            final(self).machine_inst_arena@ == old(self).machine_inst_arena@.push(inst),
            final(self).iseq@ == old(self).iseq@.push(id),
            final(self).cur_bb == old(self).cur_bb,
            final(self).cur_func == old(self).cur_func,
            final(self).dag_to_reg@ == old(self).dag_to_reg@,
            final(self).stack_adjust == old(self).stack_adjust,
            final(self).vreg_gen == old(self).vreg_gen,
    {
        let inst_id = self.machine_inst_arena.len();
        self.machine_inst_arena.push(inst);
        self.iseq.push(inst_id);
        inst_id
    }
}

/// The move into a register of `bit` bits: register-to-register for a
/// register, immediate for a constant; only 32-bit moves exist.
pub open spec fn spec_mov_n_rx(bit: usize, x: MachineOperand) -> Option<MachineOpcode> {
    match x {
        MachineOperand::Register(_) => if bit == 32 { Some(MachineOpcode::MOVrr32) } else { None },
        MachineOperand::Constant(_) => if bit == 32 { Some(MachineOpcode::MOVri32) } else { None },
        _ => None,
    }
}

/// `bit` is a power of two.
pub open spec fn is_pow2(bit: usize) -> bool {
    bit > 0 && bit & ((bit - 1) as usize) == 0
}

pub fn mov_n_rx(bit: usize, x: &MachineOperand) -> (r: Option<MachineOpcode>)
    requires
        is_pow2(bit),
    ensures
        r == spec_mov_n_rx(bit, *x),
{
    let mov32rx = [MachineOpcode::MOVrr32, MachineOpcode::MOVri32];
    let xidx: usize = match x {
        MachineOperand::Register(_) => 0,
        MachineOperand::Constant(_) => 1,
        _ => return None,
    };
    match bit {
        32 => Some(mov32rx[xidx]),
        _ => None,
    }
}

/// The move of `x` into a register: a double is moved with `MOVSDrm64`;
/// otherwise by the width of `x` (32 or 64 bits), register-to-register for
/// a register, immediate for a constant and from memory for a stack slot.
pub open spec fn spec_mov_rx(x: MachineOperand) -> Option<MachineOpcode> {
    if x.spec_get_type() == Some(Type::F64) {
        Some(MachineOpcode::MOVSDrm64)
    } else {
        match x {
            MachineOperand::Register(r) => if r.bits == 32 {
                Some(MachineOpcode::MOVrr32)
            } else if r.bits == 64 {
                Some(MachineOpcode::MOVrr64)
            } else {
                None
            },
            MachineOperand::Constant(c) => if c.spec_size_in_bits() == 32 {
                Some(MachineOpcode::MOVri32)
            } else if c.spec_size_in_bits() == 64 {
                Some(MachineOpcode::MOVri64)
            } else {
                None
            },
            MachineOperand::FrameIndex(f) => if f.bits == 32 || f.bits == 64 {
                Some(MachineOpcode::MOVrm64)
            } else {
                None
            },
            _ => None,
        }
    }
}

/// The move of `x` into a register.  The width of a register or stack slot
/// is the one recorded with it, which must agree with its type; `tys` is
/// not read.
pub fn mov_rx(tys: &Types, x: &MachineOperand) -> (r: Option<MachineOpcode>)
    requires
        x.spec_get_type() is Some,
        x.widths_ok(),
    ensures
        r == spec_mov_rx(*x),
{
    if x.get_type().unwrap() == Type::F64 {
        return Some(MachineOpcode::MOVSDrm64);
    }
    let mov32rx = [MachineOpcode::MOVrr32, MachineOpcode::MOVri32, MachineOpcode::MOVrm64];
    let mov64rx = [MachineOpcode::MOVrr64, MachineOpcode::MOVri64, MachineOpcode::MOVrm64];
    let (bit, xidx): (usize, usize) = match x {
        MachineOperand::Register(r) => (r.bits, 0),
        MachineOperand::Constant(c) => (c.size_in_bits(), 1),
        MachineOperand::FrameIndex(f) => (f.bits, 2),
        _ => return None,
    };
    match bit {
        32 => Some(mov32rx[xidx]),
        64 => Some(mov64rx[xidx]),
        _ => None,
    }
}

/// The move of `x` into memory: register or immediate, 32 bits only.
pub open spec fn spec_mov_mx(x: MachineOperand) -> Option<MachineOpcode> {
    match x {
        MachineOperand::Register(r) => if r.bits == 32 { Some(MachineOpcode::MOVmr32) } else { None },
        MachineOperand::Constant(c) => if c.spec_size_in_bits() == 32 {
            Some(MachineOpcode::MOVmi32)
        } else {
            None
        },
        _ => None,
    }
}

/// The move of `x` into memory, by the width recorded with a register,
/// which must agree with its type.
pub fn mov_mx(x: &MachineOperand) -> (r: Option<MachineOpcode>)
    requires
        x.widths_ok(),
    ensures
        r == spec_mov_mx(*x),
{
    let mov32mx = [MachineOpcode::MOVmr32, MachineOpcode::MOVmi32];
    let (bit, n): (usize, usize) = match x {
        MachineOperand::Register(r) => (r.bits, 0),
        MachineOperand::Constant(c) => (c.size_in_bits(), 1),
        _ => return None,
    };
    match bit {
        32 => Some(mov32mx[n]),
        _ => None,
    }
}

} // verus!

verus! {

/// A register with its virtual register number set aside: what the
/// conversion fixes of a register before numbering it.
pub open spec fn erase(r: MachineRegister) -> MachineRegister {
    MachineRegister { vreg: 0, ..r }
}

pub open spec fn erase_op(o: MachineOperand) -> MachineOperand {
    match o {
        MachineOperand::Register(r) => MachineOperand::Register(erase(r)),
        _ => o,
    }
}

pub open spec fn const_operand(c: ConstantKind) -> MachineConstant {
    match c {
        ConstantKind::Int32(i) => MachineConstant::Int32(i),
        ConstantKind::Int64(i) => MachineConstant::Int64(i),
        ConstantKind::F64(f) => MachineConstant::F64(f),
    }
}

/// Converting node `m` yields a register: the result register of the
/// instruction made from it.
pub open spec fn yields_reg(d: &DAGFunction, m: usize) -> bool
    decreases m,
{
    if m >= d.node_arena@.len() {
        false
    } else {
        let nd = d.node_arena@[m as int];
        match nd.kind {
            NodeKind::MI(_) => spec_ty2rc(nd.ty) is Some,
            NodeKind::IR(IRNodeKind::Phi) => spec_ty2rc(nd.ty) is Some,
            NodeKind::IR(IRNodeKind::Setcc) => spec_ty2rc(nd.ty) is Some,
            NodeKind::IR(IRNodeKind::CopyToReg) => true,
            NodeKind::IR(IRNodeKind::Rem) => true,
            NodeKind::IR(IRNodeKind::Call) => nd.ty != Type::Void,
            NodeKind::IR(IRNodeKind::CopyToLiveOut) => nd.operand@.len() > 0 && nd.operand@[0] < m && yields_reg(
                d,
                nd.operand@[0],
            ),
            _ => false,
        }
    }
}

/// The register that converting node `m` yields, its number set aside.
pub open spec fn reg_shape(d: &DAGFunction, m: usize) -> MachineRegister
    decreases m,
{
    let nd = d.node_arena@[m as int];
    let gr32 = class_reg(RegisterClassKind::GR32, 0, None);
    match nd.kind {
        NodeKind::MI(_) | NodeKind::IR(IRNodeKind::Phi) | NodeKind::IR(IRNodeKind::Setcc) => match spec_ty2rc(nd.ty) {
            Some(rc) => class_reg(rc, 0, None),
            None => gr32,
        },
        NodeKind::IR(IRNodeKind::CopyToReg) => match d.node_arena@[nd.operand@[0] as int].kind {
            NodeKind::Operand(OperandNodeKind::Register(r)) => erase(r),
            _ => gr32,
        },
        NodeKind::IR(IRNodeKind::CopyToLiveOut) => if m < d.node_arena@.len() && nd.operand@.len() > 0 && nd.operand@[0] < m {
            reg_shape(d, nd.operand@[0])
        } else {
            gr32
        },
        _ => gr32,
    }
}

/// The machine operand that node `m` becomes, its register number set
/// aside.
pub open spec fn op_shape(d: &DAGFunction, m: usize) -> MachineOperand {
    match d.node_arena@[m as int].kind {
        NodeKind::Operand(OperandNodeKind::Constant(c)) => MachineOperand::Constant(const_operand(c)),
        NodeKind::Operand(OperandNodeKind::FrameIndex(f)) => MachineOperand::FrameIndex(f),
        NodeKind::Operand(OperandNodeKind::Address(a)) => MachineOperand::Address(a),
        NodeKind::Operand(OperandNodeKind::Register(r)) => MachineOperand::Register(erase(r)),
        NodeKind::Empty => MachineOperand::Empty,
        _ => MachineOperand::Register(reg_shape(d, m)),
    }
}

/// The machine operand that node `m` becomes, given the registers that
/// converted nodes yield: immediates, stack slots, functions and registers
/// as they are, an empty node as empty, and any other node as its
/// register.
pub open spec fn op_value(d: &DAGFunction, regs: Map<usize, Option<MachineRegister>>, m: usize) -> MachineOperand {
    match d.node_arena@[m as int].kind {
        NodeKind::Operand(OperandNodeKind::Constant(c)) => MachineOperand::Constant(const_operand(c)),
        NodeKind::Operand(OperandNodeKind::FrameIndex(f)) => MachineOperand::FrameIndex(f),
        NodeKind::Operand(OperandNodeKind::Address(a)) => MachineOperand::Address(a),
        NodeKind::Operand(OperandNodeKind::Register(r)) => MachineOperand::Register(r),
        NodeKind::Empty => MachineOperand::Empty,
        _ => match regs[m] {
            Some(r) => MachineOperand::Register(r),
            None => MachineOperand::Empty,
        },
    }
}

/// Node `m` can be turned into an operand: it is an immediate, a stack
/// slot, a function, a register or empty, or it yields a register.
pub open spec fn normal_ok(d: &DAGFunction, m: usize) -> bool {
    &&& m < d.node_arena@.len()
    &&& match d.node_arena@[m as int].kind {
        NodeKind::Operand(OperandNodeKind::BasicBlock(_)) => false,
        NodeKind::Operand(OperandNodeKind::CondKind(_)) => false,
        NodeKind::Operand(_) => true,
        NodeKind::Empty => true,
        _ => yields_reg(d, m),
    }
}

/// Node `m` names a block of the layout.
pub open spec fn is_bb(d: &DAGFunction, m: usize) -> bool {
    &&& m < d.node_arena@.len()
    &&& d.node_arena@[m as int].kind matches NodeKind::Operand(OperandNodeKind::BasicBlock(b))
    &&& d.dag_basic_blocks@.contains(b)
}

pub open spec fn bb_of(d: &DAGFunction, m: usize) -> usize {
    match d.node_arena@[m as int].kind {
        NodeKind::Operand(OperandNodeKind::BasicBlock(b)) => b,
        _ => 0,
    }
}

/// Node `m` is a condition.
pub open spec fn is_cond(d: &DAGFunction, m: usize) -> bool {
    &&& m < d.node_arena@.len()
    &&& d.node_arena@[m as int].kind is Operand
    &&& d.node_arena@[m as int].kind->Operand_0 is CondKind
}

/// Argument `i` of a call, as operand `s`, can be passed: in its class's
/// `i`-th argument register (moved there, or its address taken for a
/// stack slot), or else stored on the stack.
pub open spec fn call_arg_ok(s: MachineOperand, i: usize) -> bool {
    match s.spec_get_type() {
        Some(t) => match spec_ty2rc(t) {
            Some(rc) => s.widths_ok() && match rc.spec_get_nth_arg_reg(i) {
                Some(_) => (s is Constant || s is Register) && spec_mov_rx(s) is Some || s is FrameIndex,
                None => spec_mov_mx(s) is Some,
            },
            None => false,
        },
        None => false,
    }
}

/// The register that a tie names exists on an instruction of node `nd`.
pub open spec fn tie_reg_ok(d: &DAGFunction, nd: DAGNode, x: DefOrUseReg) -> bool {
    match x {
        DefOrUseReg::Def(i) => i == 0 && spec_ty2rc(nd.ty) is Some,
        DefOrUseReg::Use(i) => i < nd.operand@.len() && op_shape(d, nd.operand@[i as int]) is Register,
    }
}

/// Converting node `n` does not fail: its operands come before it, and
/// each kind of node has the operands that its conversion reads.
pub open spec fn node_ok(d: &DAGFunction, n: usize) -> bool {
    let nd = d.node_arena@[n as int];
    let ops = nd.operand@;
    &&& forall|i: int| 0 <= i < ops.len() ==> #[trigger] ops[i] < n
    &&& nd.next matches Some(x) ==> x < d.node_arena@.len()
    &&& ops.len() <= 0x1000_0000
    &&& match nd.kind {
        NodeKind::MI(_) => (forall|i: int| 0 <= i < ops.len() ==> normal_ok(d, #[trigger] ops[i])) && (forall|t: int|
            0 <= t < nd.tie@.len() ==> tie_reg_ok(d, nd, (#[trigger] nd.tie@[t]).0) && tie_reg_ok(d, nd, nd.tie@[t].1)),
        NodeKind::IR(IRNodeKind::CopyToReg) => ops.len() >= 2 && (d.node_arena@[ops[0] as int].kind matches NodeKind::Operand(
            OperandNodeKind::Register(_),
        )) && normal_ok(d, ops[1]),
        NodeKind::IR(IRNodeKind::Call) => ops.len() >= 1 && normal_ok(d, ops[0]) && forall|i: int|
            1 <= i < ops.len() ==> normal_ok(d, #[trigger] ops[i]) && call_arg_ok(op_shape(d, ops[i]), (i - 1) as usize),
        NodeKind::IR(IRNodeKind::Phi) => ops.len() % 2 == 0 && forall|i: int|
            0 <= i < ops.len() ==> if i % 2 == 0 {
                normal_ok(d, #[trigger] ops[i])
            } else {
                is_bb(d, ops[i])
            },
        NodeKind::IR(IRNodeKind::Rem) => ops.len() >= 2 && normal_ok(d, ops[0]) && normal_ok(d, ops[1]) && spec_mov_n_rx(
            32,
            op_shape(d, ops[0]),
        ) is Some && op_shape(d, ops[1]).spec_get_type() == Some(Type::i32) && spec_mov_n_rx(32, op_shape(d, ops[1])) is Some,
        NodeKind::IR(IRNodeKind::Setcc) => ops.len() >= 3 && is_cond(d, ops[0]) && normal_ok(d, ops[1]) && normal_ok(d, ops[2]),
        NodeKind::IR(IRNodeKind::Br) => ops.len() >= 1 && is_bb(d, ops[0]),
        NodeKind::IR(IRNodeKind::BrCond) => ops.len() >= 2 && normal_ok(d, ops[0]) && is_bb(d, ops[1]),
        NodeKind::IR(IRNodeKind::Brcc) => ops.len() >= 4 && is_cond(d, ops[0]) && normal_ok(d, ops[1]) && normal_ok(d, ops[2])
            && op_shape(d, ops[1]) is Register && (op_shape(d, ops[2]) is Constant || op_shape(d, ops[2]) is Register) && is_bb(
            d,
            ops[3],
        ),
        NodeKind::IR(IRNodeKind::Ret) => ops.len() >= 1 && normal_ok(d, ops[0]) && match op_shape(d, ops[0]).spec_get_type() {
            Some(t) => spec_ty2rc(t) is Some && spec_mov_rx(op_shape(d, ops[0])) is Some && op_shape(d, ops[0]).widths_ok(),
            None => true,
        },
        NodeKind::IR(IRNodeKind::CopyToLiveOut) => ops.len() >= 1,
        _ => true,
    }
}

impl DAGFunction {
    /// The function can be converted: every node converts, and the layout
    /// names each block once, each with a chain, and every predecessor and
    /// successor of a block of the layout is in it.
    pub open spec fn wf(&self) -> bool {
        &&& self.node_arena@.len() < usize::MAX
        &&& forall|n: usize| n < self.node_arena@.len() ==> #[trigger] node_ok(self, n)
        &&& self.dag_basic_blocks@.no_duplicates()
        &&& forall|k: int|
            0 <= k < self.dag_basic_blocks@.len() ==> {
                let b = #[trigger] self.dag_basic_blocks@[k];
                &&& b < self.dag_basic_block_arena@.len()
                &&& self.dag_basic_block_arena@[b as int].entry matches Some(e) && e < self.node_arena@.len()
                &&& forall|j: int|
                    0 <= j < self.dag_basic_block_arena@[b as int].pred@.len() ==> self.dag_basic_blocks@.contains(
                        #[trigger] self.dag_basic_block_arena@[b as int].pred@[j],
                    )
                &&& forall|j: int|
                    0 <= j < self.dag_basic_block_arena@[b as int].succ@.len() ==> self.dag_basic_blocks@.contains(
                        #[trigger] self.dag_basic_block_arena@[b as int].succ@[j],
                    )
            }
    }
}

/// Every node that has been converted yields a register exactly when
/// `yields_reg` says so, of the shape that `reg_shape` gives.
pub open spec fn regs_ok(d: &DAGFunction, m: Map<usize, Option<MachineRegister>>) -> bool {
    forall|n: usize|
        #[trigger] m.contains_key(n) ==> n < d.node_arena@.len() && (m[n] is Some <==> yields_reg(d, n)) && (m[n] matches Some(
            r,
        ) ==> erase(r) == reg_shape(d, n))
}

/// Every node that has an instruction has it in the arena, with a result
/// register exactly when it yields one, of the shape that `reg_shape`
/// gives.
pub open spec fn insts_ok(d: &DAGFunction, m: Map<usize, usize>, arena: Seq<MachineInstr>) -> bool {
    forall|n: usize|
        #[trigger] m.contains_key(n) ==> n < d.node_arena@.len() && m[n] < arena.len() && (arena[m[n] as int].def@.len() > 0
            <==> yields_reg(d, n)) && (arena[m[n] as int].def@.len() > 0 ==> erase(arena[m[n] as int].def@[0]) == reg_shape(
            d,
            n,
        ))
}

/// The numbers `lo .. hi`, in order.
pub open spec fn new_ids(lo: int, hi: int) -> Seq<usize> {
    Seq::new((hi - lo) as nat, |i: int| (lo + i) as usize)
}

/// What conversion reads and changes of its state.
pub struct ConvSnap {
    pub func: DAGFunction,
    pub arena: Seq<MachineInstr>,
    pub regs: Map<usize, Option<MachineRegister>>,
    pub cur_bb: usize,
    pub iseq: Seq<usize>,
    pub stack_adjust: usize,
    pub vreg_gen: usize,
}

impl<'a> ConversionInfo<'a> {
    pub open spec fn snap(&self) -> ConvSnap {
        ConvSnap {
            func: *self.cur_func,
            arena: self.machine_inst_arena@,
            regs: self.dag_to_reg@,
            cur_bb: self.cur_bb,
            iseq: self.iseq@,
            stack_adjust: self.stack_adjust,
            vreg_gen: self.vreg_gen,
        }
    }
}

/// `b` is `a` after more conversion: instructions were only appended, to
/// the current block and its sequence; converted nodes keep their
/// registers; the stack bytes only grew.
pub open spec fn appended(a: ConvSnap, b: ConvSnap) -> bool {
    &&& a.arena.len() <= b.arena.len()
    &&& forall|i: int| 0 <= i < a.arena.len() ==> #[trigger] b.arena[i] == a.arena[i]
    &&& forall|i: int| a.arena.len() <= i < b.arena.len() ==> (#[trigger] b.arena[i]).parent == a.cur_bb
    &&& b.iseq == a.iseq + new_ids(a.arena.len() as int, b.arena.len() as int)
    &&& b.cur_bb == a.cur_bb
    &&& b.func == a.func
    &&& a.stack_adjust <= b.stack_adjust
    &&& forall|k: usize| #[trigger] a.regs.contains_key(k) ==> b.regs.contains_key(k) && b.regs[k] == a.regs[k]
}

/// `b` is `a` after more conversion: the block map is unchanged and every
/// node keeps its instruction.
pub open spec fn kept(a: &MIConverter, b: &MIConverter) -> bool {
    &&& b.dag_bb_to_machine_bb@ == a.dag_bb_to_machine_bb@
    &&& forall|k: usize|
        #[trigger] a.node_id_to_machine_inst_id@.contains_key(k) ==> b.node_id_to_machine_inst_id@.contains_key(k)
            && b.node_id_to_machine_inst_id@[k] == a.node_id_to_machine_inst_id@[k]
}

/// What conversion keeps true: the function can be converted, the maps
/// agree with the nodes and the arena, and every block of the layout is
/// mapped.
pub open spec fn conv_inv(s: &MIConverter, c: ConvSnap) -> bool {
    &&& c.func.wf()
    &&& regs_ok(&c.func, c.regs)
    &&& insts_ok(&c.func, s.node_id_to_machine_inst_id@, c.arena)
    &&& forall|b: usize| c.func.dag_basic_blocks@.contains(b) ==> #[trigger] s.dag_bb_to_machine_bb@.contains_key(b)
    &&& forall|m: usize|
        #[trigger] s.node_id_to_machine_inst_id@.contains_key(m) && c.func.node_arena@[m as int].kind == NodeKind::IR(
            IRNodeKind::Call,
        ) ==> c.stack_adjust >= call_stack_bytes(&c.func, m)
    &&& c.stack_adjust <= max_call_bytes(&c.func)
}

/// The number of the first `k` nodes that have not been converted.
pub open spec fn unconverted(m: Map<usize, Option<MachineRegister>>, k: nat) -> nat
    decreases k,
{
    if k == 0 {
        0
    } else {
        unconverted(m, (k - 1) as nat) + if m.contains_key((k - 1) as usize) {
            0nat
        } else {
            1nat
        }
    }
}

proof fn lemma_unconverted(a: Map<usize, Option<MachineRegister>>, b: Map<usize, Option<MachineRegister>>, n: usize, k: nat)
    requires
        forall|x: usize| #[trigger] a.contains_key(x) ==> b.contains_key(x),
        k <= usize::MAX + 1,
    ensures
        unconverted(b, k) <= unconverted(a, k),
        n < k && !a.contains_key(n) && b.contains_key(n) ==> unconverted(b, k) < unconverted(a, k),
    decreases k,
{
    if k > 0 {
        lemma_unconverted(a, b, n, (k - 1) as nat);
    }
}

proof fn lemma_appended_trans(a: ConvSnap, b: ConvSnap, c: ConvSnap)
    requires
        appended(a, b),
        appended(b, c),
    ensures
        appended(a, c),
{
    let la = a.arena.len() as int;
    let lb = b.arena.len() as int;
    let lc = c.arena.len() as int;
    assert(new_ids(la, lb) + new_ids(lb, lc) =~= new_ids(la, lc));
    assert(c.iseq =~= a.iseq + new_ids(la, lc));
    assert forall|i: int| la <= i < lc implies (#[trigger] c.arena[i]).parent == a.cur_bb by {
        if i < lb {
            assert(c.arena[i] == b.arena[i]);
        }
    }
}

/// Only the virtual register counter changed.
pub open spec fn only_vreg(a: ConvSnap, b: ConvSnap) -> bool {
    b == ConvSnap { vreg_gen: b.vreg_gen, ..a }
}

proof fn lemma_only_vreg(a: ConvSnap, b: ConvSnap)
    requires
        only_vreg(a, b),
    ensures
        appended(a, b),
{
    assert(a.iseq =~= a.iseq + new_ids(a.arena.len() as int, a.arena.len() as int));
}

/// Pushing an instruction of the current block.
proof fn lemma_push(a: ConvSnap, b: ConvSnap, inst: MachineInstr)
    requires
        inst.parent == a.cur_bb,
        b == (ConvSnap { arena: a.arena.push(inst), iseq: a.iseq.push(a.arena.len() as usize), ..a }),
        a.arena.len() <= usize::MAX,
    ensures
        appended(a, b),
{
    let l = a.arena.len() as int;
    assert(new_ids(l, l + 1) =~= seq![l as usize]);
    assert(b.iseq =~= a.iseq + new_ids(l, l + 1));
    assert forall|i: int| 0 <= i < l implies #[trigger] b.arena[i] == a.arena[i] by {}
    assert forall|i: int| l <= i < b.arena.len() implies (#[trigger] b.arena[i]).parent == a.cur_bb by {
        assert(b.arena[i] == inst);
    }
}

} // verus!

verus! {

/// The next virtual register number after `v`.
pub open spec fn next_num(v: usize) -> usize {
    if v == usize::MAX {
        0
    } else {
        (v + 1) as usize
    }
}

/// Hands out the next virtual register number.
fn next_vreg(ci: &mut ConversionInfo) -> (v: usize)
    ensures
        v == old(ci).vreg_gen,
        final(ci).snap() == (ConvSnap { vreg_gen: next_num(v), ..old(ci).snap() }),
{
    let v = ci.vreg_gen;
    ci.vreg_gen = if v == usize::MAX {
        0
    } else {
        v + 1
    };
    v
}

/// Appends an instruction of the current block.
fn emit(ci: &mut ConversionInfo, inst: MachineInstr) -> (id: usize)
    requires
        inst.parent == old(ci).cur_bb,
    ensures
        id == old(ci).machine_inst_arena@.len(),
        final(ci).snap() == (ConvSnap {
            arena: old(ci).snap().arena.push(inst),
            iseq: old(ci).snap().iseq.push(id),
            ..old(ci).snap()
        }),
        appended(old(ci).snap(), final(ci).snap()),
{
    let ghost a = ci.snap();
    let id = ci.push_inst(inst);
    proof {
        lemma_push(a, ci.snap(), inst);
    }
    id
}

/// Instruction `i` has these parts and no ties.
pub open spec fn inst_is(
    i: MachineInstr,
    opcode: MachineOpcode,
    def: Seq<MachineRegister>,
    operand: Seq<MachineOperand>,
    imp_def: Seq<MachineRegister>,
    imp_use: Seq<MachineRegister>,
    bb: usize,
) -> bool {
    &&& i.opcode == opcode
    &&& i.def@ == def
    &&& i.operand@ == operand
    &&& i.imp_def@ == imp_def
    &&& i.imp_use@ == imp_use
    &&& i.tie@ == Seq::<(MachineRegister, MachineRegister)>::empty()
    &&& i.parent == bb
}

/// An instruction with the given operands and result registers.
fn inst_with(
    opcode: MachineOpcode,
    operand: Vec<MachineOperand>,
    def: Vec<MachineRegister>,
    bb: usize,
) -> (i: MachineInstr)
    ensures
        inst_is(i, opcode, def@, operand@, seq![], seq![], bb),
{
    MachineInstr { opcode, def, operand, imp_def: Vec::new(), imp_use: Vec::new(), tie: Vec::new(), parent: bb }
}

/// An instruction whose result, when `rc` names a class, is a fresh
/// register of that class.
fn new_inst(ci: &mut ConversionInfo, opcode: MachineOpcode, operand: Vec<MachineOperand>, rc: Option<RegisterClassKind>) -> (i:
    MachineInstr)
    ensures
        inst_is(
            i,
            opcode,
            match rc {
                Some(c) => seq![class_reg(c, old(ci).vreg_gen, None)],
                None => seq![],
            },
            operand@,
            seq![],
            seq![],
            old(ci).cur_bb,
        ),
        final(ci).snap() == (ConvSnap {
            vreg_gen: if rc is Some {
                next_num(old(ci).vreg_gen)
            } else {
                old(ci).vreg_gen
            },
            ..old(ci).snap()
        }),
{
    let mut def: Vec<MachineRegister> = Vec::new();
    match rc {
        Some(c) => {
            let v = next_vreg(ci);
            def.push(new_class_reg(c, v, None));
        },
        None => {},
    }
    inst_with(opcode, operand, def, ci.cur_bb)
}

} // verus!

verus! {

/// Conversion can start on node `n` with measure `k`.
pub open spec fn conv_pre(s: &MIConverter, c: ConvSnap, n: usize, k: nat) -> bool {
    &&& conv_inv(s, c)
    &&& n < c.func.node_arena@.len()
    &&& k == unconverted(c.regs, c.func.node_arena@.len() as nat)
}

/// What every conversion step leaves true.
pub open spec fn conv_post(s0: &MIConverter, c0: ConvSnap, s1: &MIConverter, c1: ConvSnap) -> bool {
    &&& conv_inv(s1, c1)
    &&& appended(c0, c1)
    &&& kept(s0, s1)
}

proof fn lemma_appended_refl(a: ConvSnap)
    ensures
        appended(a, a),
{
    assert(a.iseq =~= a.iseq + new_ids(a.arena.len() as int, a.arena.len() as int));
}

proof fn lemma_insts_appended(d: &DAGFunction, m: Map<usize, usize>, a: ConvSnap, b: ConvSnap)
    requires
        insts_ok(d, m, a.arena),
        appended(a, b),
    ensures
        insts_ok(d, m, b.arena),
{
    assert forall|n: usize| #[trigger] m.contains_key(n) implies n < d.node_arena@.len() && m[n] < b.arena.len() && (
    b.arena[m[n] as int].def@.len() > 0 <==> yields_reg(d, n)) && (b.arena[m[n] as int].def@.len() > 0 ==> erase(
        b.arena[m[n] as int].def@[0],
    ) == reg_shape(d, n)) by {
        assert(b.arena[m[n] as int] == a.arena[m[n] as int]);
    }
}

/// The operand value of an argument register or stack slot agrees with
/// its shape in everything but its register number.
proof fn lemma_erase_op(x: MachineOperand, s: MachineOperand)
    requires
        erase_op(x) == s,
    ensures
        x.spec_get_type() == s.spec_get_type(),
        x.widths_ok() == s.widths_ok(),
        spec_mov_rx(x) == spec_mov_rx(s),
        spec_mov_mx(x) == spec_mov_mx(s),
        spec_mov_n_rx(32, x) == spec_mov_n_rx(32, s),
        x is Register <==> s is Register,
        x is Constant <==> s is Constant,
        x is FrameIndex <==> s is FrameIndex,
{
}

/// The register that a tie names on instruction `inst`.
fn tie_reg(inst: &MachineInstr, x: DefOrUseReg) -> (r: MachineRegister)
    requires
        match x {
            DefOrUseReg::Def(i) => i < inst.def@.len(),
            DefOrUseReg::Use(i) => i < inst.operand@.len() && inst.operand@[i as int] is Register,
        },
    ensures
        match x {
            DefOrUseReg::Def(i) => r == inst.def@[i as int],
            DefOrUseReg::Use(i) => inst.operand@[i as int] == MachineOperand::Register(r),
        },
{
    match x {
        DefOrUseReg::Def(i) => inst.def[i],
        DefOrUseReg::Use(i) => match inst.operand[i] {
            MachineOperand::Register(r) => r,
            _ => unreached(),
        },
    }
}

/// The instruction that moves `op` into register `r`: a move for an
/// immediate or a register, the address of a stack slot (off `RBP`).
fn move_operand_to_reg(tys: &Types, op: MachineOperand, r: MachineRegister, bb: usize) -> (i: MachineInstr)
    requires
        (op is Constant || op is Register) && op.spec_get_type() is Some && op.widths_ok() && spec_mov_rx(op) is Some
            || op is FrameIndex,
    ensures
        op is FrameIndex ==> inst_is(
            i,
            MachineOpcode::LEAr64m,
            seq![r],
            seq![
                MachineOperand::Register(class_reg(RegisterClassKind::GR64, 0, Some(PhysReg::RBP))),
                op,
                MachineOperand::Empty,
                MachineOperand::Empty,
            ],
            seq![],
            seq![],
            bb,
        ),
        !(op is FrameIndex) ==> inst_is(i, spec_mov_rx(op)->Some_0, seq![r], seq![op], seq![], seq![], bb),
{
    match op {
        MachineOperand::Constant(_) | MachineOperand::Register(_) => {
            let m = mov_rx(tys, &op).unwrap();
            let ops = vec![op];
            let defs = vec![r];
            assert(ops@ =~= seq![op]);
            assert(defs@ =~= seq![r]);
            inst_with(m, ops, defs, bb)
        },
        MachineOperand::FrameIndex(_) => {
            let rbp = MachineOperand::Register(new_class_reg(RegisterClassKind::GR64, 0, Some(PhysReg::RBP)));
            let ops = vec![rbp, op, MachineOperand::Empty, MachineOperand::Empty];
            let defs = vec![r];
            assert(ops@ =~= seq![rbp, op, MachineOperand::Empty, MachineOperand::Empty]);
            assert(defs@ =~= seq![r]);
            inst_with(MachineOpcode::LEAr64m, ops, defs, bb)
        },
        _ => unreached(),
    }
}

} // verus!

verus! {

impl MIConverter {
    /// The machine operand that node `n` becomes: immediates, stack slots,
    /// functions and registers as they are, an empty node as empty, and
    /// any other node as the register that converting it yields.
    fn normal_operand(&mut self, tys: &Types, ci: &mut ConversionInfo, n: usize, Ghost(k): Ghost<nat>) -> (r: MachineOperand)
        requires
            conv_pre(&*old(self), old(ci).snap(), n, k),
            normal_ok(old(ci).cur_func, n),
        ensures
            conv_post(&*old(self), old(ci).snap(), &*final(self), final(ci).snap()),
            erase_op(r) == op_shape(old(ci).cur_func, n),
            old(ci).cur_func.node_arena@[n as int].kind matches NodeKind::Operand(OperandNodeKind::Register(reg)) ==> r
                == MachineOperand::Register(reg),
            yields_reg(old(ci).cur_func, n) ==> (r matches MachineOperand::Register(reg) && final(ci).dag_to_reg@.contains_key(n)
                && final(ci).dag_to_reg@[n] == Some(reg)),
            r == op_value(old(ci).cur_func, final(ci).dag_to_reg@, n),
        decreases k, n, 4nat,
    {
        let d = ci.cur_func;
        match d.node_arena[n].kind {
            NodeKind::Operand(OperandNodeKind::Constant(c)) => {
                proof {
                    lemma_appended_refl(ci.snap());
                }
                MachineOperand::Constant(
                    match c {
                        ConstantKind::Int32(i) => MachineConstant::Int32(i),
                        ConstantKind::Int64(i) => MachineConstant::Int64(i),
                        ConstantKind::F64(f) => MachineConstant::F64(f),
                    },
                )
            },
            NodeKind::Operand(OperandNodeKind::FrameIndex(f)) => {
                proof {
                    lemma_appended_refl(ci.snap());
                }
                MachineOperand::FrameIndex(f)
            },
            NodeKind::Operand(OperandNodeKind::Address(a)) => {
                proof {
                    lemma_appended_refl(ci.snap());
                }
                MachineOperand::Address(a)
            },
            NodeKind::Operand(OperandNodeKind::Register(r)) => {
                proof {
                    lemma_appended_refl(ci.snap());
                }
                MachineOperand::Register(r)
            },
            NodeKind::Operand(OperandNodeKind::BasicBlock(_)) => unreached(),
            NodeKind::Operand(OperandNodeKind::CondKind(_)) => unreached(),
            NodeKind::Empty => {
                proof {
                    lemma_appended_refl(ci.snap());
                }
                MachineOperand::Empty
            },
            _ => {
                let r = self.convert_dag_rec(tys, ci, n, Ghost(k));
                MachineOperand::Register(r.unwrap())
            },
        }
    }

    /// Converts node `n`, unless it was converted before, and then the
    /// rest of its chain; gives the register that `n` yields, if any.
    fn convert_dag_rec(&mut self, tys: &Types, ci: &mut ConversionInfo, n: usize, Ghost(k): Ghost<nat>) -> (r: Option<
        MachineRegister,
    >)
        requires
            conv_pre(&*old(self), old(ci).snap(), n, k),
        ensures
            conv_post(&*old(self), old(ci).snap(), &*final(self), final(ci).snap()),
            final(ci).dag_to_reg@.contains_key(n),
            r == final(ci).dag_to_reg@[n],
            old(ci).dag_to_reg@.contains_key(n) ==> final(ci).snap() == old(ci).snap() && *final(self) == *old(self),
            !old(ci).dag_to_reg@.contains_key(n) && !old(self).node_id_to_machine_inst_id@.contains_key(n) ==> exists|
                cm: ConvSnap,
                id: Option<usize>,
            |
                #![trigger selected(old(self).dag_bb_to_machine_bb@, old(ci).snap(), cm, n, id)]
                selected(old(self).dag_bb_to_machine_bb@, old(ci).snap(), cm, n, id) && cm.arena.is_prefix_of(
                    final(ci).machine_inst_arena@,
                ),
        decreases k, n, 3nat,
    {
        match fx_map_get(&ci.dag_to_reg, n) {
            Some(mr) => {
                proof {
                    lemma_appended_refl(ci.snap());
                }
                return *mr;
            },
            None => {},
        }
        let ghost c0 = ci.snap();
        let ghost s0 = *self;
        let ghost l = c0.func.node_arena@.len() as nat;
        let id = self.convert_dag_to_machine_inst(tys, ci, n, Ghost(k));
        let mr = match id {
            Some(i) => if ci.machine_inst_arena[i].def.len() > 0 {
                Some(ci.machine_inst_arena[i].def[0])
            } else {
                None
            },
            None => None,
        };
        let ghost c1 = ci.snap();
        let ghost s1 = *self;
        fx_map_insert(&mut ci.dag_to_reg, n, mr);
        let ghost c2 = ci.snap();
        proof {
            assert(c2 == ConvSnap { regs: c1.regs.insert(n, mr), ..c1 });
            lemma_appended_insert(c0, c1, c2, n, mr);
            lemma_unconverted(c0.regs, c2.regs, n, l);
            match id {
                Some(i) => {
                    assert(self.node_id_to_machine_inst_id@.contains_key(n));
                },
                None => {},
            }
            assert forall|x: usize| #[trigger] c2.regs.contains_key(x) implies x < c2.func.node_arena@.len() && (c2.regs[x] is Some
                <==> yields_reg(&c2.func, x)) && (c2.regs[x] matches Some(r) ==> erase(r) == reg_shape(&c2.func, x)) by {
                if x != n {
                    assert(c1.regs.contains_key(x));
                }
            }
            assert(conv_inv(&*self, c2));
            assert(node_ok(&c2.func, n));
        }
        match ci.cur_func.node_arena[n].next {
            Some(nx) => {
                let _ = self.convert_dag_rec(tys, ci, nx, Ghost(unconverted(ci.dag_to_reg@, l)));
                proof {
                    lemma_appended_trans(c0, c2, ci.snap());
                    assert(c2.regs.contains_key(n));
                }
            },
            None => {},
        }
        proof {
            if !s0.node_id_to_machine_inst_id@.contains_key(n) {
                assert(selected(s0.dag_bb_to_machine_bb@, c0, c1, n, id));
                assert(c1.arena.is_prefix_of(ci.machine_inst_arena@)) by {
                    assert(appended(c2, ci.snap()));
                }
            }
        }
        mr
    }
}

} // verus!

verus! {

/// What the instruction made from node `n` (if any) says of it: a result
/// register exactly when `n` yields one, of the shape `reg_shape` gives.
pub open spec fn res_ok(d: &DAGFunction, n: usize, res: Option<usize>, arena: Seq<MachineInstr>) -> bool {
    match res {
        Some(id) => id < arena.len() && (arena[id as int].def@.len() > 0 <==> yields_reg(d, n)) && (arena[id as int].def@.len()
            > 0 ==> erase(arena[id as int].def@[0]) == reg_shape(d, n)),
        None => !yields_reg(d, n),
    }
}

proof fn lemma_appended_insert(c0: ConvSnap, c1: ConvSnap, c2: ConvSnap, n: usize, mr: Option<MachineRegister>)
    requires
        appended(c0, c1),
        !c0.regs.contains_key(n),
        c2 == (ConvSnap { regs: c1.regs.insert(n, mr), ..c1 }),
    ensures
        appended(c0, c2),
{
    assert forall|k: usize| #[trigger] c0.regs.contains_key(k) implies c2.regs.contains_key(k) && c2.regs[k] == c0.regs[k] by {
        assert(k != n);
    }
}

proof fn lemma_step(s: &MIConverter, a: ConvSnap, b: ConvSnap)
    requires
        conv_inv(s, a),
        appended(a, b),
        b.regs == a.regs,
        b.stack_adjust <= max_call_bytes(&b.func),
    ensures
        conv_inv(s, b),
{
    lemma_insts_appended(&a.func, s.node_id_to_machine_inst_id@, a, b);
}

proof fn lemma_post_trans(s0: &MIConverter, c0: ConvSnap, s1: &MIConverter, c1: ConvSnap, s2: &MIConverter, c2: ConvSnap)
    requires
        conv_post(s0, c0, s1, c1),
        conv_post(s1, c1, s2, c2),
    ensures
        conv_post(s0, c0, s2, c2),
{
    lemma_appended_trans(c0, c1, c2);
}

/// Emitting instruction `inst` of the current block after more
/// conversion keeps what conversion keeps.
proof fn lemma_post_emit(s0: &MIConverter, c0: ConvSnap, s: &MIConverter, c1: ConvSnap, c2: ConvSnap)
    requires
        conv_post(s0, c0, s, c1),
        appended(c1, c2),
        c2.regs == c1.regs,
        c2.stack_adjust <= max_call_bytes(&c2.func),
    ensures
        conv_post(s0, c0, s, c2),
{
    lemma_step(s, c1, c2);
    lemma_appended_trans(c0, c1, c2);
}

} // verus!

verus! {

impl MIConverter {
    /// Makes the machine instructions of node `n`, unless it has them
    /// already, and gives the number of the one that stands for it.
    fn convert_dag_to_machine_inst(&mut self, tys: &Types, ci: &mut ConversionInfo, n: usize, Ghost(k): Ghost<nat>) -> (r:
        Option<usize>)
        requires
            conv_pre(&*old(self), old(ci).snap(), n, k),
        ensures
            conv_post(&*old(self), old(ci).snap(), &*final(self), final(ci).snap()),
            old(self).node_id_to_machine_inst_id@.contains_key(n) ==> r == Some(old(self).node_id_to_machine_inst_id@[n])
                && final(ci).snap() == old(ci).snap() && *final(self) == *old(self),
            match r {
                Some(id) => final(self).node_id_to_machine_inst_id@.contains_key(n) && final(self).node_id_to_machine_inst_id@[n]
                    == id,
                None => !yields_reg(old(ci).cur_func, n),
            },
            !old(self).node_id_to_machine_inst_id@.contains_key(n) ==> selected(
                old(self).dag_bb_to_machine_bb@,
                old(ci).snap(),
                final(ci).snap(),
                n,
                r,
            ),
        decreases k, n, 2nat,
    {
        match fx_map_get(&self.node_id_to_machine_inst_id, n) {
            Some(id) => {
                proof {
                    lemma_appended_refl(ci.snap());
                }
                return Some(*id);
            },
            None => {},
        }
        let ghost c0 = ci.snap();
        let ghost s0 = *self;
        let ghost l = c0.func.node_arena@.len() as nat;
        let d = ci.cur_func;
        let nd = &d.node_arena[n];
        assert(node_ok(d, n));
        proof {
            lemma_appended_refl(c0);
        }
        let res: Option<usize> = match nd.kind {
            NodeKind::MI(op) => self.convert_mi(tys, ci, n, op, Ghost(k)),
            NodeKind::IR(IRNodeKind::CopyToReg) => self.convert_copy_to_reg(tys, ci, n, Ghost(k)),
            NodeKind::IR(IRNodeKind::Call) => {
                let (id, Ghost(pos)) = self.convert_call_dag(tys, ci, n, Ghost(k));
                proof {
                    assert(pos.len() == call_args(d, ci.dag_to_reg@, n).len());
                }
                Some(id)
            },
            NodeKind::IR(IRNodeKind::Phi) => self.convert_phi(tys, ci, n, Ghost(k)),
            NodeKind::IR(IRNodeKind::Rem) => self.convert_rem(tys, ci, n, Ghost(k)),
            NodeKind::IR(IRNodeKind::Setcc) => self.convert_setcc(tys, ci, n, Ghost(k)),
            NodeKind::IR(IRNodeKind::Br) => self.convert_br(tys, ci, n, Ghost(k)),
            NodeKind::IR(IRNodeKind::BrCond) => self.convert_br_cond(tys, ci, n, Ghost(k)),
            NodeKind::IR(IRNodeKind::Brcc) => self.convert_brcc(tys, ci, n, Ghost(k)),
            NodeKind::IR(IRNodeKind::Ret) => {
                let id = self.convert_ret(tys, ci, n, Ghost(k));
                Some(id)
            },
            NodeKind::IR(IRNodeKind::CopyToLiveOut) => {
                let ghost c1 = ci.snap();
                proof {
                    lemma_unconverted(c0.regs, c1.regs, n, l);
                }
                self.convert_dag_to_machine_inst(tys, ci, nd.operand[0], Ghost(unconverted(ci.dag_to_reg@, l)))
            },
            _ => None,
        };
        proof {
            lemma_setcc_meaning(cond_of(d, opnd(d, n, 0)));
            lemma_jcc_meaning(cond_of(d, opnd(d, n, 0)));
        }
        assert(selected(s0.dag_bb_to_machine_bb@, c0, ci.snap(), n, res));
        assert(conv_post(&s0, c0, &*self, ci.snap()));
        assert(res_ok(d, n, res, ci.snap().arena));
        match res {
            Some(id) => {
                fx_map_insert(&mut self.node_id_to_machine_inst_id, n, id);
            },
            None => {},
        }
        res
    }
}

} // verus!

verus! {

impl MIConverter {
    /// Returns from the function: the value, when it has a type, is moved
    /// into its class's return register, then `RET`.
    fn convert_ret(&mut self, tys: &Types, ci: &mut ConversionInfo, n: usize, Ghost(k): Ghost<nat>) -> (id: usize)
        requires
            conv_pre(&*old(self), old(ci).snap(), n, k),
            old(ci).cur_func.node_arena@[n as int].kind == NodeKind::IR(IRNodeKind::Ret),
        ensures
            conv_post(&*old(self), old(ci).snap(), &*final(self), final(ci).snap()),
            id + 1 == final(ci).machine_inst_arena@.len(),
            inst_is(final(ci).machine_inst_arena@[id as int], MachineOpcode::RET, seq![], seq![], seq![], seq![], old(ci).cur_bb),
            ({
                let v = op_value(old(ci).cur_func, final(ci).dag_to_reg@, opnd(old(ci).cur_func, n, 0));
                let a = final(ci).machine_inst_arena@;
                match v.spec_get_type() {
                    Some(t) => a.len() >= 2 && inst_is(
                        a[a.len() - 2],
                        spec_mov_rx(v)->Some_0,
                        seq![class_reg(spec_ty2rc(t)->Some_0, 0, Some(spec_ty2rc(t)->Some_0.spec_return_value_register()))],
                        seq![v],
                        seq![],
                        seq![],
                        old(ci).cur_bb,
                    ),
                    None => true,
                }
            }),
        decreases k, n, 1nat,
    {
        let ghost c0 = ci.snap();
        let ghost s0 = *self;
        let ghost l = c0.func.node_arena@.len() as nat;
        let d = ci.cur_func;
        let nd = &d.node_arena[n];
        assert(node_ok(d, n));
        proof {
            lemma_unconverted(c0.regs, c0.regs, n, l);
        }
        let val = self.normal_operand(tys, ci, nd.operand[0], Ghost(k));
        let ghost cv = ci.snap();
        proof {
            lemma_erase_op(val, op_shape(d, nd.operand@[0]));
        }
        match val.get_type() {
            Some(ty) => {
                let rc = ty2rc(ty).unwrap();
                let rr = new_class_reg(rc, 0, Some(rc.return_value_register()));
                let m = mov_rx(tys, &val).unwrap();
                let ops = vec![val];
                let defs = vec![rr];
                assert(ops@ =~= seq![val]);
                assert(defs@ =~= seq![rr]);
                let inst = inst_with(m, ops, defs, ci.cur_bb);
                let ghost c1 = ci.snap();
                let _ = emit(ci, inst);
                proof {
                    lemma_post_emit(&s0, c0, &*self, c1, ci.snap());
                }
            },
            None => {},
        }
        let ret = inst_with(MachineOpcode::RET, Vec::new(), Vec::new(), ci.cur_bb);
        assert(ret.operand@ =~= seq![]);
        assert(ret.def@ =~= seq![]);
        let ghost c2 = ci.snap();
        let id = emit(ci, ret);
        proof {
            lemma_post_emit(&s0, c0, &*self, c2, ci.snap());
            lemma_appended_trans(cv, c2, ci.snap());
            lemma_op_value_kept(d, cv, ci.snap(), nd.operand@[0]);
        }
        id
    }

    /// Calls a function: each argument is moved into its argument register
    /// or stored on the stack at the next 8-byte slot, the stack bytes
    /// grow to cover those slots, then `Call`, and for a call with a
    /// value a copy of `EAX` into a fresh register.
    fn convert_call_dag(&mut self, tys: &Types, ci: &mut ConversionInfo, n: usize, Ghost(k): Ghost<nat>) -> (r: (usize, Ghost<Seq<int>>))
        requires
            conv_pre(&*old(self), old(ci).snap(), n, k),
            old(ci).cur_func.node_arena@[n as int].kind == NodeKind::IR(IRNodeKind::Call),
        ensures
            conv_post(&*old(self), old(ci).snap(), &*final(self), final(ci).snap()),
            r.0 + 1 == final(ci).machine_inst_arena@.len(),
            res_ok(old(ci).cur_func, n, Some(r.0), final(ci).machine_inst_arena@),
            ({
                let d = old(ci).cur_func;
                let vals = call_args(d, final(ci).dag_to_reg@, n);
                let a = final(ci).machine_inst_arena@;
                let z = a.len() as int;
                let bb = old(ci).cur_bb;
                let void = d.node_arena@[n as int].ty == Type::Void;
                let w = if void { prev_num(final(ci).vreg_gen) } else { prev_num(prev_num(final(ci).vreg_gen)) };
                let eax = class_reg(RegisterClassKind::GR32, w, Some(PhysReg::EAX));
                let call_at = if void { z - 1 } else { z - 2 };
                &&& r.1@.len() == vals.len()
                &&& forall|j: int|
                    0 <= j < vals.len() ==> old(ci).machine_inst_arena@.len() <= #[trigger] r.1@[j] < call_at && arg_inst_ok(
                        a[r.1@[j]],
                        vals,
                        j,
                        bb,
                    )
                &&& forall|j: int, m: int| 0 <= j < m < vals.len() ==> #[trigger] r.1@[j] < #[trigger] r.1@[m]
                &&& final(ci).stack_adjust >= 8 * stack_args(vals, vals.len() as int)
                &&& final(ci).stack_adjust >= call_stack_bytes(d, n)
                &&& call_at >= old(ci).machine_inst_arena@.len()
                &&& inst_is(
                    a[call_at],
                    MachineOpcode::Call,
                    seq![],
                    seq![op_value(d, final(ci).dag_to_reg@, opnd(d, n, 0))],
                    if void { seq![] } else { seq![eax] },
                    arg_regs(vals, vals.len() as int),
                    bb,
                )
                &&& !void ==> inst_is(
                    a[z - 1],
                    MachineOpcode::Copy,
                    seq![class_reg(RegisterClassKind::GR32, prev_num(final(ci).vreg_gen), None)],
                    seq![MachineOperand::Register(eax)],
                    seq![],
                    seq![],
                    bb,
                )
            }),
        decreases k, n, 1nat,
    {
        let ghost c0 = ci.snap();
        let ghost s0 = *self;
        let ghost l = c0.func.node_arena@.len() as nat;
        let d = ci.cur_func;
        let nd = &d.node_arena[n];
        assert(node_ok(d, n));
        proof {
            lemma_appended_refl(c0);
        }
        let mut arg_reg_list: Vec<MachineRegister> = Vec::new();
        let mut off: i32 = 0;
        let nops = nd.operand.len();
        let ghost mut vals: Seq<MachineOperand> = seq![];
        let ghost mut pos: Seq<int> = seq![];
        let mut i: usize = 1;
        while i < nops
            invariant
                conv_post(&s0, c0, &*self, ci.snap()),
                c0.func == *d,
                n < l == d.node_arena@.len(),
                node_ok(d, n),
                *nd == d.node_arena@[n as int],
                nd.kind == NodeKind::IR(IRNodeKind::Call),
                nops == nd.operand@.len(),
                1 <= i <= nops,
                k == unconverted(c0.regs, l),
                vals.len() == i - 1,
                forall|j: int|
                    0 <= j < i - 1 ==> #[trigger] vals[j] == op_value(d, ci.dag_to_reg@, nd.operand@[j + 1]) && (yields_reg(
                        d,
                        nd.operand@[j + 1],
                    ) ==> ci.dag_to_reg@.contains_key(nd.operand@[j + 1])),
                arg_reg_list@ == arg_regs(vals, i - 1),
                forall|j: int| 0 <= j < i - 1 ==> erase_op(#[trigger] vals[j]) == op_shape(d, nd.operand@[j + 1]),
                off == 8 * stack_args(vals, i - 1),
                stack_args(vals, i - 1) <= i - 1,
                pos.len() == i - 1,
                forall|j: int|
                    0 <= j < i - 1 ==> c0.arena.len() <= #[trigger] pos[j] < ci.machine_inst_arena@.len() && arg_inst_ok(
                        ci.machine_inst_arena@[pos[j]],
                        vals,
                        j,
                        c0.cur_bb,
                    ),
                forall|j: int, m: int| 0 <= j < m < i - 1 ==> #[trigger] pos[j] < #[trigger] pos[m],
            decreases nops - i,
        {
            let ghost c1 = ci.snap();
            let ghost s1 = *self;
            proof {
                lemma_unconverted(c0.regs, c1.regs, n, l);
            }
            assert(normal_ok(d, nd.operand@[i as int]) && call_arg_ok(op_shape(d, nd.operand@[i as int]), (i - 1) as usize));
            let arg = self.normal_operand(tys, ci, nd.operand[i], Ghost(unconverted(ci.dag_to_reg@, l)));
            let ghost c2 = ci.snap();
            proof {
                lemma_post_trans(&s0, c0, &s1, c1, &*self, c2);
                lemma_erase_op(arg, op_shape(d, nd.operand@[i as int]));
                assert forall|j: int| 0 <= j < i - 1 implies #[trigger] op_value(d, c1.regs, nd.operand@[j + 1]) == op_value(
                    d,
                    c2.regs,
                    nd.operand@[j + 1],
                ) by {
                    assert(normal_ok(d, nd.operand@[j + 1]));
                    assert(vals[j] == op_value(d, c1.regs, nd.operand@[j + 1]));
                    lemma_op_value_kept(d, c1, c2, nd.operand@[j + 1]);
                }
            }
            let ghost vals2 = vals.push(arg);
            proof {
                lemma_args_prefix(vals, vals2, i - 1);
            }
            let ty = arg.get_type().unwrap();
            let rc = ty2rc(ty).unwrap();
            let inst = match rc.get_nth_arg_reg(i - 1) {
                Some(ar) => {
                    let r = new_class_reg(rc, 0, Some(ar));
                    arg_reg_list.push(r);
                    move_operand_to_reg(tys, arg, r, ci.cur_bb)
                },
                None => {
                    let rsp = MachineOperand::Register(new_class_reg(RegisterClassKind::GR64, 0, Some(PhysReg::RSP)));
                    let m = mov_mx(&arg).unwrap();
                    let ops = vec![
                        rsp,
                        MachineOperand::Empty,
                        MachineOperand::Empty,
                        MachineOperand::Constant(MachineConstant::Int32(off)),
                        arg,
                    ];
                    assert(ops@ =~= seq![
                        rsp,
                        MachineOperand::Empty,
                        MachineOperand::Empty,
                        MachineOperand::Constant(MachineConstant::Int32(off)),
                        arg,
                    ]);
                    let defs: Vec<MachineRegister> = Vec::new();
                    assert(defs@ =~= seq![]);
                    let st = inst_with(m, ops, defs, ci.cur_bb);
                    off = off + 8;
                    st
                },
            };
            let ghost c3 = ci.snap();
            let ghost p = ci.machine_inst_arena@.len() as int;
            let _ = emit(ci, inst);
            proof {
                lemma_post_emit(&s0, c0, &*self, c3, ci.snap());
                assert(arg_inst_ok(ci.machine_inst_arena@[p], vals2, i - 1, c0.cur_bb));
                assert forall|j: int| 0 <= j < i - 1 implies arg_inst_ok(ci.machine_inst_arena@[pos[j]], vals2, j, c0.cur_bb) by {
                    assert(ci.machine_inst_arena@[pos[j]] == c1.arena[pos[j]]);
                    lemma_args_prefix(vals, vals2, j);
                }
                vals = vals2;
                pos = pos.push(p);
            }
            i = i + 1;
        }
        let ghost c3 = ci.snap();
        proof {
            assert forall|j: int| 0 <= j < vals.len() implies erase_op(vals[j]) == #[trigger] call_arg_shapes(d, n)[j] by {
            }
            lemma_stack_args_erase(vals, call_arg_shapes(d, n), vals.len() as int);
            lemma_max_call_bytes(d, n, d.node_arena@.len() as nat);
            assert(off == call_stack_bytes(d, n));
        }
        let offu = off as usize;
        if ci.stack_adjust < offu {
            ci.stack_adjust = offu;
        }
        proof {
            lemma_appended_refl(c3);
            assert(appended(c3, ci.snap()));
            lemma_post_emit(&s0, c0, &*self, c3, ci.snap());
        }
        let ghost c4 = ci.snap();
        let ghost s4 = *self;
        proof {
            lemma_unconverted(c0.regs, c4.regs, n, l);
        }
        let callee = self.normal_operand(tys, ci, nd.operand[0], Ghost(unconverted(ci.dag_to_reg@, l)));
        let ghost c4b = ci.snap();
        proof {
            lemma_post_trans(&s0, c0, &s4, c4, &*self, ci.snap());
        }
        let ghost c5 = ci.snap();
        let v = next_vreg(ci);
        let ret_reg = new_class_reg(RegisterClassKind::GR32, v, Some(PhysReg::EAX));
        proof {
            lemma_only_vreg(c5, ci.snap());
            lemma_post_emit(&s0, c0, &*self, c5, ci.snap());
        }
        let is_void = nd.ty == Type::Void;
        let imp_def = if is_void {
            Vec::new()
        } else {
            vec![ret_reg]
        };
        let call = MachineInstr {
            opcode: MachineOpcode::Call,
            def: Vec::new(),
            operand: vec![callee],
            imp_def,
            imp_use: arg_reg_list,
            tie: Vec::new(),
            parent: ci.cur_bb,
        };
        assert(call.operand@ =~= seq![callee]);
        assert(call.def@ =~= seq![]);
        assert(call.tie@ =~= seq![]);
        assert(call.imp_def@ =~= if is_void { seq![] } else { seq![ret_reg] });
        let ghost c6 = ci.snap();
        let call_id = emit(ci, call);
        proof {
            lemma_post_emit(&s0, c0, &*self, c6, ci.snap());
        }
        let ghost cq = ci.snap();
        let id = if is_void {
            call_id
        } else {
            let ghost c7 = ci.snap();
            let ops = vec![MachineOperand::Register(ret_reg)];
            assert(ops@ =~= seq![MachineOperand::Register(ret_reg)]);
            let cp = new_inst(ci, MachineOpcode::Copy, ops, Some(RegisterClassKind::GR32));
            proof {
                lemma_only_vreg(c7, ci.snap());
                lemma_post_emit(&s0, c0, &*self, c7, ci.snap());
            }
            let ghost c8 = ci.snap();
            let id = emit(ci, cp);
            proof {
                lemma_post_emit(&s0, c0, &*self, c8, ci.snap());
                lemma_appended_trans(c7, c8, ci.snap());
                assert(prev_num(next_num(v)) == v);
            }
            id
        };
        proof {
            let cf = ci.snap();
            lemma_appended_refl(cq);
            lemma_appended_trans(c6, cq, cf);
            lemma_appended_trans(c5, c6, cf);
            lemma_appended_trans(c4b, c5, cf);
            lemma_appended_trans(c3, c4b, cf);
            lemma_op_value_kept(d, c4b, cf, nd.operand@[0]);
            assert forall|j: int| 0 <= j < vals.len() implies #[trigger] vals[j] == call_args(d, cf.regs, n)[j] by {
                assert(normal_ok(d, nd.operand@[j + 1]));
                assert(vals[j] == op_value(d, c3.regs, nd.operand@[j + 1]));
                lemma_op_value_kept(d, c3, cf, nd.operand@[j + 1]);
            }
            assert(vals =~= call_args(d, cf.regs, n));
            lemma_stack_args_erase(vals, call_arg_shapes(d, n), vals.len() as int);
            assert forall|j: int| 0 <= j < vals.len() implies cf.arena[pos[j]] == c3.arena[pos[j]] by {}
            assert(prev_num(next_num(v)) == v);
        }
        (id, Ghost(pos))
    }
}

} // verus!

verus! {

impl MIConverter {
    fn convert_mi(&mut self, tys: &Types, ci: &mut ConversionInfo, n: usize, op: MachineOpcode, Ghost(k): Ghost<nat>) -> (r: Option<usize>)
        requires
            conv_pre(&*old(self), old(ci).snap(), n, k),
            old(ci).cur_func.node_arena@[n as int].kind == NodeKind::MI(op),
        ensures
            conv_post(&*old(self), old(ci).snap(), &*final(self), final(ci).snap()),
            res_ok(old(ci).cur_func, n, r, final(ci).machine_inst_arena@),
            r == Some((final(ci).machine_inst_arena@.len() - 1) as usize),
            ({
                let d = old(ci).cur_func;
                let nd = d.node_arena@[n as int];
                let i = final(ci).machine_inst_arena@.last();
                &&& i.opcode == op
                &&& i.def@ == fresh_def(nd.ty, final(ci).vreg_gen)
                &&& i.operand@ == mi_operands(d, final(ci).dag_to_reg@, n)
                &&& i.imp_def@ == Seq::<MachineRegister>::empty()
                &&& i.imp_use@ == Seq::<MachineRegister>::empty()
                &&& i.parent == old(ci).cur_bb
                &&& i.tie@.len() == nd.tie@.len()
                &&& forall|t: int|
                    0 <= t < nd.tie@.len() ==> #[trigger] i.tie@[t] == (
                        tie_pick(i.def@, i.operand@, nd.tie@[t].0),
                        tie_pick(i.def@, i.operand@, nd.tie@[t].1),
                    )
            }),
        decreases k, n, 1nat,
    {
        let ghost c0 = ci.snap();
        let ghost s0 = *self;
        let ghost l = c0.func.node_arena@.len() as nat;
        let d = ci.cur_func;
        let nd = &d.node_arena[n];
        assert(node_ok(d, n));
        proof {
            lemma_appended_refl(c0);
        }
        let nops = nd.operand.len();
        let mut operands: Vec<MachineOperand> = Vec::new();
        let mut i: usize = 0;
        while i < nops
            invariant
                conv_post(&s0, c0, &*self, ci.snap()),
                c0.func == *d,
                n < l == d.node_arena@.len(),
                node_ok(d, n),
                *nd == d.node_arena@[n as int],
                nd.kind == NodeKind::MI(op),
                nops == nd.operand@.len(),
                0 <= i <= nops,
                operands@.len() == i,
                forall|j: int| 0 <= j < i ==> erase_op(#[trigger] operands@[j]) == op_shape(d, nd.operand@[j]),
                k == unconverted(c0.regs, l),
                forall|j: int| 0 <= j < i ==> #[trigger] operands@[j] == op_value(d, ci.dag_to_reg@, nd.operand@[j]),
                forall|j: int|
                    0 <= j < i ==> (yields_reg(d, #[trigger] nd.operand@[j]) ==> ci.dag_to_reg@.contains_key(nd.operand@[j])),
            decreases nops - i,
        {
            let ghost c1 = ci.snap();
            let ghost s1 = *self;
            proof {
                lemma_unconverted(c0.regs, c1.regs, n, l);
            }
            let o = self.normal_operand(tys, ci, nd.operand[i], Ghost(unconverted(ci.dag_to_reg@, l)));
            proof {
                lemma_post_trans(&s0, c0, &s1, c1, &*self, ci.snap());
                let c2 = ci.snap();
                assert forall|j: int| 0 <= j < i implies op_value(d, c1.regs, nd.operand@[j]) == op_value(
                    d,
                    c2.regs,
                    nd.operand@[j],
                ) by {
                    assert(normal_ok(d, nd.operand@[j]));
                    lemma_op_value_kept(d, c1, c2, nd.operand@[j]);
                }
            }
            operands.push(o);
            i = i + 1;
        }
        assert(operands@ =~= mi_operands(d, ci.dag_to_reg@, n));
        let ghost c1 = ci.snap();
        let rc = ty2rc(nd.ty);
        let mut inst = new_inst(ci, op, operands, rc);
        proof {
            lemma_only_vreg(c1, ci.snap());
            lemma_post_emit(&s0, c0, &*self, c1, ci.snap());
        }
        let ghost def0 = inst.def@;
        let nt = nd.tie.len();
        let mut t: usize = 0;
        while t < nt
            invariant
                nt == nd.tie@.len(),
                node_ok(d, n),
                *nd == d.node_arena@[n as int],
                nd.kind == NodeKind::MI(op),
                n < d.node_arena@.len(),
                inst.def@ == def0,
                def0 == match spec_ty2rc(nd.ty) {
                    Some(c) => seq![class_reg(c, c1.vreg_gen, None)],
                    None => Seq::<MachineRegister>::empty(),
                },
                inst.operand@.len() == nd.operand@.len(),
                forall|j: int| 0 <= j < nd.operand@.len() ==> erase_op(#[trigger] inst.operand@[j]) == op_shape(d, nd.operand@[j]),
                inst.parent == c0.cur_bb,
                inst.opcode == op,
                inst.imp_def@ == Seq::<MachineRegister>::empty(),
                inst.imp_use@ == Seq::<MachineRegister>::empty(),
                inst.operand@ == mi_operands(d, c1.regs, n),
                inst.tie@.len() == t,
                0 <= t <= nt,
                forall|u: int|
                    0 <= u < t ==> #[trigger] inst.tie@[u] == (
                        tie_pick(inst.def@, inst.operand@, nd.tie@[u].0),
                        tie_pick(inst.def@, inst.operand@, nd.tie@[u].1),
                    ),
            decreases nt - t,
        {
            let (a, b) = nd.tie[t];
            assert(tie_reg_ok(d, *nd, nd.tie@[t as int].0) && tie_reg_ok(d, *nd, nd.tie@[t as int].1));
            proof {
                match a {
                    DefOrUseReg::Use(u) => {
                        lemma_erase_op(inst.operand@[u as int], op_shape(d, nd.operand@[u as int]));
                    },
                    _ => {},
                }
                match b {
                    DefOrUseReg::Use(u) => {
                        lemma_erase_op(inst.operand@[u as int], op_shape(d, nd.operand@[u as int]));
                    },
                    _ => {},
                }
            }
            let ra = tie_reg(&inst, a);
            let rb = tie_reg(&inst, b);
            inst.tie.push((ra, rb));
            t = t + 1;
        }
        let ghost c2 = ci.snap();
        let ghost fin = inst;
        let id = emit(ci, inst);
        proof {
            lemma_post_emit(&s0, c0, &*self, c2, ci.snap());
            assert(ci.snap().arena.last() == fin);
            assert(ci.snap().regs == c1.regs);
            assert(prev_num(next_num(c1.vreg_gen)) == c1.vreg_gen);
            assert(fin.def@ == fresh_def(nd.ty, ci.vreg_gen));
            assert(fin.operand@ == mi_operands(d, ci.dag_to_reg@, n));
            assert(fin.tie@.len() == nd.tie@.len());
            assert(fin.opcode == op);
            assert forall|t: int|
                0 <= t < nd.tie@.len() implies #[trigger] fin.tie@[t] == (
                    tie_pick(fin.def@, fin.operand@, nd.tie@[t].0),
                    tie_pick(fin.def@, fin.operand@, nd.tie@[t].1),
                ) by {
            }
        }
        Some(id)
    }

    fn convert_copy_to_reg(&mut self, tys: &Types, ci: &mut ConversionInfo, n: usize, Ghost(k): Ghost<nat>) -> (r: Option<usize>)
        requires
            conv_pre(&*old(self), old(ci).snap(), n, k),
            old(ci).cur_func.node_arena@[n as int].kind == NodeKind::IR(IRNodeKind::CopyToReg),
        ensures
            conv_post(&*old(self), old(ci).snap(), &*final(self), final(ci).snap()),
            res_ok(old(ci).cur_func, n, r, final(ci).machine_inst_arena@),
            r == Some((final(ci).machine_inst_arena@.len() - 1) as usize),
            inst_is(
                final(ci).machine_inst_arena@.last(),
                MachineOpcode::Copy,
                seq![copy_dst(old(ci).cur_func, n)],
                seq![op_value(old(ci).cur_func, final(ci).dag_to_reg@, opnd(old(ci).cur_func, n, 1))],
                seq![],
                seq![],
                old(ci).cur_bb,
            ),
        decreases k, n, 1nat,
    {
        let ghost c0 = ci.snap();
        let ghost s0 = *self;
        let ghost l = c0.func.node_arena@.len() as nat;
        let d = ci.cur_func;
        let nd = &d.node_arena[n];
        assert(node_ok(d, n));
        proof {
            lemma_appended_refl(c0);
        }
        let ghost c1 = ci.snap();
        proof {
            lemma_unconverted(c0.regs, c1.regs, n, l);
        }
        let val = self.normal_operand(tys, ci, nd.operand[1], Ghost(unconverted(ci.dag_to_reg@, l)));
        let dst = match d.node_arena[nd.operand[0]].kind {
            NodeKind::Operand(OperandNodeKind::Register(r)) => r,
            _ => unreached(),
        };
        let ops = vec![val];
        let defs = vec![dst];
        assert(ops@ =~= seq![val]);
        assert(defs@ =~= seq![dst]);
        let inst = inst_with(MachineOpcode::Copy, ops, defs, ci.cur_bb);
        let ghost c2 = ci.snap();
        let id = emit(ci, inst);
        proof {
            lemma_post_emit(&s0, c0, &*self, c2, ci.snap());
            lemma_op_value_kept(d, c2, ci.snap(), nd.operand@[1]);
        }
        Some(id)
    }

    fn convert_phi(&mut self, tys: &Types, ci: &mut ConversionInfo, n: usize, Ghost(k): Ghost<nat>) -> (r: Option<usize>)
        requires
            conv_pre(&*old(self), old(ci).snap(), n, k),
            old(ci).cur_func.node_arena@[n as int].kind == NodeKind::IR(IRNodeKind::Phi),
        ensures
            conv_post(&*old(self), old(ci).snap(), &*final(self), final(ci).snap()),
            res_ok(old(ci).cur_func, n, r, final(ci).machine_inst_arena@),
            r == Some((final(ci).machine_inst_arena@.len() - 1) as usize),
            inst_is(
                final(ci).machine_inst_arena@.last(),
                MachineOpcode::Phi,
                fresh_def(old(ci).cur_func.node_arena@[n as int].ty, final(ci).vreg_gen),
                phi_operands(old(self).dag_bb_to_machine_bb@, old(ci).cur_func, final(ci).dag_to_reg@, n),
                seq![],
                seq![],
                old(ci).cur_bb,
            ),
        decreases k, n, 1nat,
    {
        let ghost c0 = ci.snap();
        let ghost s0 = *self;
        let ghost l = c0.func.node_arena@.len() as nat;
        let d = ci.cur_func;
        let nd = &d.node_arena[n];
        assert(node_ok(d, n));
        proof {
            lemma_appended_refl(c0);
        }
        let nops = nd.operand.len();
        let mut operands: Vec<MachineOperand> = Vec::new();
        let mut i: usize = 0;
        while i < nops
            invariant
                conv_post(&s0, c0, &*self, ci.snap()),
                c0.func == *d,
                n < l == d.node_arena@.len(),
                node_ok(d, n),
                *nd == d.node_arena@[n as int],
                nd.kind == NodeKind::IR(IRNodeKind::Phi),
                nops == nd.operand@.len(),
                nops % 2 == 0,
                i % 2 == 0,
                0 <= i <= nops,
                k == unconverted(c0.regs, l),
                operands@.len() == i,
                forall|j: int|
                    0 <= j < i ==> #[trigger] operands@[j] == phi_operands(s0.dag_bb_to_machine_bb@, d, ci.dag_to_reg@, n)[j],
                forall|j: int|
                    0 <= j < i && j % 2 == 0 ==> (yields_reg(d, #[trigger] nd.operand@[j]) ==> ci.dag_to_reg@.contains_key(
                        nd.operand@[j],
                    )),
            decreases nops - i,
        {
            let ghost c1 = ci.snap();
            let ghost s1 = *self;
            proof {
                lemma_unconverted(c0.regs, c1.regs, n, l);
            }
            assert(normal_ok(d, nd.operand@[i as int]));
            let o = self.normal_operand(tys, ci, nd.operand[i], Ghost(unconverted(ci.dag_to_reg@, l)));
            proof {
                lemma_post_trans(&s0, c0, &s1, c1, &*self, ci.snap());
                let c2 = ci.snap();
                assert forall|j: int| 0 <= j < i && j % 2 == 0 implies op_value(d, c1.regs, nd.operand@[j]) == op_value(
                    d,
                    c2.regs,
                    nd.operand@[j],
                ) by {
                    assert(normal_ok(d, nd.operand@[j]));
                    lemma_op_value_kept(d, c1, c2, nd.operand@[j]);
                }
            }
            operands.push(o);
            assert(is_bb(d, nd.operand@[i + 1]));
            let b = match d.node_arena[nd.operand[i + 1]].kind {
                NodeKind::Operand(OperandNodeKind::BasicBlock(b)) => b,
                _ => unreached(),
            };
            let mb = self.get_machine_bb(b);
            operands.push(MachineOperand::Branch(mb));
            i = i + 2;
        }
        assert(operands@ =~= phi_operands(s0.dag_bb_to_machine_bb@, d, ci.dag_to_reg@, n));
        let ghost c1 = ci.snap();
        let rc = ty2rc(nd.ty);
        let inst = new_inst(ci, MachineOpcode::Phi, operands, rc);
        proof {
            lemma_only_vreg(c1, ci.snap());
            lemma_post_emit(&s0, c0, &*self, c1, ci.snap());
        }
        let ghost c2 = ci.snap();
        let id = emit(ci, inst);
        proof {
            lemma_post_emit(&s0, c0, &*self, c2, ci.snap());
        }
        Some(id)
    }

    fn convert_rem(&mut self, tys: &Types, ci: &mut ConversionInfo, n: usize, Ghost(k): Ghost<nat>) -> (r: Option<usize>)
        requires
            conv_pre(&*old(self), old(ci).snap(), n, k),
            old(ci).cur_func.node_arena@[n as int].kind == NodeKind::IR(IRNodeKind::Rem),
        ensures
            conv_post(&*old(self), old(ci).snap(), &*final(self), final(ci).snap()),
            res_ok(old(ci).cur_func, n, r, final(ci).machine_inst_arena@),
            r == Some((final(ci).machine_inst_arena@.len() - 1) as usize),
            final(ci).machine_inst_arena@.len() >= 5,
            ({
                let d = old(ci).cur_func;
                let a = final(ci).machine_inst_arena@;
                let z = a.len() as int;
                let bb = old(ci).cur_bb;
                let eax = class_reg(RegisterClassKind::GR32, old(ci).vreg_gen, Some(PhysReg::EAX));
                let edx = class_reg(RegisterClassKind::GR32, next_num(old(ci).vreg_gen), Some(PhysReg::EDX));
                let v1 = op_value(d, final(ci).dag_to_reg@, opnd(d, n, 0));
                let v2 = op_value(d, final(ci).dag_to_reg@, opnd(d, n, 1));
                let t = class_reg(RegisterClassKind::GR32, prev_num(prev_num(final(ci).vreg_gen)), None);
                let c = class_reg(RegisterClassKind::GR32, prev_num(final(ci).vreg_gen), None);
                &&& inst_is(a[z - 5], spec_mov_n_rx(32, v1)->Some_0, seq![eax], seq![v1], seq![], seq![], bb)
                &&& inst_is(a[z - 4], MachineOpcode::CDQ, seq![], seq![], seq![edx], seq![eax], bb)
                &&& inst_is(a[z - 3], spec_mov_n_rx(32, v2)->Some_0, seq![t], seq![v2], seq![], seq![], bb)
                &&& inst_is(a[z - 2], MachineOpcode::IDIV, seq![], seq![MachineOperand::Register(t)], seq![eax, edx], seq![eax, edx], bb)
                &&& inst_is(a[z - 1], MachineOpcode::Copy, seq![c], seq![MachineOperand::Register(edx)], seq![], seq![], bb)
            }),
        decreases k, n, 1nat,
    {
        let ghost c0 = ci.snap();
        let ghost s0 = *self;
        let ghost l = c0.func.node_arena@.len() as nat;
        let d = ci.cur_func;
        let nd = &d.node_arena[n];
        assert(node_ok(d, n));
        proof {
            lemma_appended_refl(c0);
        }
        let ghost c1 = ci.snap();
        let v1 = next_vreg(ci);
        let eax = new_class_reg(RegisterClassKind::GR32, v1, Some(PhysReg::EAX));
        let v2 = next_vreg(ci);
        let edx = new_class_reg(RegisterClassKind::GR32, v2, Some(PhysReg::EDX));
        proof {
            lemma_only_vreg(c1, ci.snap());
            lemma_post_emit(&s0, c0, &*self, c1, ci.snap());
        }
        let ghost c2 = ci.snap();
        let ghost s2 = *self;
        proof {
            lemma_unconverted(c0.regs, c2.regs, n, l);
        }
        let op1 = self.normal_operand(tys, ci, nd.operand[0], Ghost(unconverted(ci.dag_to_reg@, l)));
        proof {
            lemma_post_trans(&s0, c0, &s2, c2, &*self, ci.snap());
        }
        let ghost c3 = ci.snap();
        let ghost s3 = *self;
        proof {
            lemma_unconverted(c0.regs, c3.regs, n, l);
        }
        let op2 = self.normal_operand(tys, ci, nd.operand[1], Ghost(unconverted(ci.dag_to_reg@, l)));
        proof {
            lemma_post_trans(&s0, c0, &s3, c3, &*self, ci.snap());
            lemma_erase_op(op1, op_shape(d, nd.operand@[0]));
            lemma_erase_op(op2, op_shape(d, nd.operand@[1]));
        }
        assert(is_pow2(32)) by (bit_vector);
        let m1 = mov_n_rx(32, &op1).unwrap();
        let ops1 = vec![op1];
        let defs1 = vec![eax];
        assert(ops1@ =~= seq![op1]);
        assert(defs1@ =~= seq![eax]);
        let i1 = inst_with(m1, ops1, defs1, ci.cur_bb);
        let ghost c4 = ci.snap();
        let _ = emit(ci, i1);
        proof {
            lemma_post_emit(&s0, c0, &*self, c4, ci.snap());
        }
        let cdq = MachineInstr {
            opcode: MachineOpcode::CDQ,
            def: Vec::new(),
            operand: Vec::new(),
            imp_def: vec![edx],
            imp_use: vec![eax],
            tie: Vec::new(),
            parent: ci.cur_bb,
        };
        assert(cdq.imp_def@ =~= seq![edx]);
        assert(cdq.imp_use@ =~= seq![eax]);
        assert(cdq.def@ =~= seq![]);
        assert(cdq.operand@ =~= seq![]);
        assert(cdq.tie@ =~= seq![]);
        let ghost c5 = ci.snap();
        let _ = emit(ci, cdq);
        proof {
            lemma_post_emit(&s0, c0, &*self, c5, ci.snap());
        }
        let m2 = mov_n_rx(32, &op2).unwrap();
        let ghost c6 = ci.snap();
        let ops2 = vec![op2];
        assert(ops2@ =~= seq![op2]);
        let inst1 = new_inst(ci, m2, ops2, Some(RegisterClassKind::GR32));
        proof {
            lemma_only_vreg(c6, ci.snap());
            lemma_post_emit(&s0, c0, &*self, c6, ci.snap());
        }
        let op2r = MachineOperand::Register(inst1.def[0]);
        let ghost c7 = ci.snap();
        let _ = emit(ci, inst1);
        proof {
            lemma_post_emit(&s0, c0, &*self, c7, ci.snap());
        }
        let idiv = MachineInstr {
            opcode: MachineOpcode::IDIV,
            def: Vec::new(),
            operand: vec![op2r],
            imp_def: vec![eax, edx],
            imp_use: vec![eax, edx],
            tie: Vec::new(),
            parent: ci.cur_bb,
        };
        assert(idiv.imp_def@ =~= seq![eax, edx]);
        assert(idiv.imp_use@ =~= seq![eax, edx]);
        assert(idiv.def@ =~= seq![]);
        assert(idiv.operand@ =~= seq![op2r]);
        assert(idiv.tie@ =~= seq![]);
        let ghost c8 = ci.snap();
        let _ = emit(ci, idiv);
        proof {
            lemma_post_emit(&s0, c0, &*self, c8, ci.snap());
        }
        let ghost c9 = ci.snap();
        let ops3 = vec![MachineOperand::Register(edx)];
        assert(ops3@ =~= seq![MachineOperand::Register(edx)]);
        let cp = new_inst(ci, MachineOpcode::Copy, ops3, Some(RegisterClassKind::GR32));
        proof {
            lemma_only_vreg(c9, ci.snap());
            lemma_post_emit(&s0, c0, &*self, c9, ci.snap());
        }
        let ghost c10 = ci.snap();
        let id = emit(ci, cp);
        proof {
            lemma_post_emit(&s0, c0, &*self, c10, ci.snap());
            let cf = ci.snap();
            lemma_appended_trans(c9, c10, cf);
            lemma_appended_trans(c8, c9, cf);
            lemma_appended_trans(c7, c8, cf);
            lemma_appended_trans(c6, c7, cf);
            lemma_appended_trans(c5, c6, cf);
            lemma_appended_trans(c4, c5, cf);
            lemma_appended_trans(c3, c4, cf);
            lemma_op_value_kept(d, c3, cf, nd.operand@[0]);
            lemma_op_value_kept(d, c4, cf, nd.operand@[1]);
            let z = cf.arena.len() as int;
            assert(cf.arena[z - 1] == cp);
            assert(cf.arena[z - 2] == idiv);
            assert(cf.arena[z - 3] == inst1);
            assert(cf.arena[z - 4] == cdq);
            assert(cf.arena[z - 5] == i1);
            assert(v2 == next_num(v1));
        }
        Some(id)
    }

    fn convert_setcc(&mut self, tys: &Types, ci: &mut ConversionInfo, n: usize, Ghost(k): Ghost<nat>) -> (r: Option<usize>)
        requires
            conv_pre(&*old(self), old(ci).snap(), n, k),
            old(ci).cur_func.node_arena@[n as int].kind == NodeKind::IR(IRNodeKind::Setcc),
        ensures
            conv_post(&*old(self), old(ci).snap(), &*final(self), final(ci).snap()),
            res_ok(old(ci).cur_func, n, r, final(ci).machine_inst_arena@),
            r == Some((final(ci).machine_inst_arena@.len() - 1) as usize),
            inst_is(
                final(ci).machine_inst_arena@.last(),
                setcc_opcode(cond_of(old(ci).cur_func, opnd(old(ci).cur_func, n, 0))),
                fresh_def(old(ci).cur_func.node_arena@[n as int].ty, final(ci).vreg_gen),
                seq![
                    op_value(old(ci).cur_func, final(ci).dag_to_reg@, opnd(old(ci).cur_func, n, 1)),
                    op_value(old(ci).cur_func, final(ci).dag_to_reg@, opnd(old(ci).cur_func, n, 2)),
                ],
                seq![],
                seq![],
                old(ci).cur_bb,
            ),
        decreases k, n, 1nat,
    {
        let ghost c0 = ci.snap();
        let ghost s0 = *self;
        let ghost l = c0.func.node_arena@.len() as nat;
        let d = ci.cur_func;
        let nd = &d.node_arena[n];
        assert(node_ok(d, n));
        proof {
            lemma_appended_refl(c0);
        }
        let ghost c1 = ci.snap();
        let ghost s1 = *self;
        proof {
            lemma_unconverted(c0.regs, c1.regs, n, l);
        }
        let op1 = self.normal_operand(tys, ci, nd.operand[1], Ghost(unconverted(ci.dag_to_reg@, l)));
        proof {
            lemma_post_trans(&s0, c0, &s1, c1, &*self, ci.snap());
        }
        let ghost c2 = ci.snap();
        let ghost s2 = *self;
        proof {
            lemma_unconverted(c0.regs, c2.regs, n, l);
        }
        let op2 = self.normal_operand(tys, ci, nd.operand[2], Ghost(unconverted(ci.dag_to_reg@, l)));
        proof {
            lemma_post_trans(&s0, c0, &s2, c2, &*self, ci.snap());
        }
        let opc = match d.node_arena[nd.operand[0]].kind {
            NodeKind::Operand(OperandNodeKind::CondKind(CondKind::Eq)) => MachineOpcode::Seteq,
            NodeKind::Operand(OperandNodeKind::CondKind(CondKind::Le)) => MachineOpcode::Setle,
            NodeKind::Operand(OperandNodeKind::CondKind(CondKind::Lt)) => MachineOpcode::Setlt,
            _ => unreached(),
        };
        let ghost c3 = ci.snap();
        let ops = vec![op1, op2];
        assert(ops@ =~= seq![op1, op2]);
        let inst = new_inst(ci, opc, ops, ty2rc(nd.ty));
        proof {
            lemma_only_vreg(c3, ci.snap());
            lemma_post_emit(&s0, c0, &*self, c3, ci.snap());
        }
        let ghost c4 = ci.snap();
        let id = emit(ci, inst);
        proof {
            lemma_post_emit(&s0, c0, &*self, c4, ci.snap());
            lemma_appended_trans(c3, c4, ci.snap());
            lemma_appended_trans(c2, c3, ci.snap());
            lemma_op_value_kept(d, c2, ci.snap(), nd.operand@[1]);
            lemma_op_value_kept(d, c3, ci.snap(), nd.operand@[2]);
        }
        Some(id)
    }

    fn convert_br(&mut self, tys: &Types, ci: &mut ConversionInfo, n: usize, Ghost(k): Ghost<nat>) -> (r: Option<usize>)
        requires
            conv_pre(&*old(self), old(ci).snap(), n, k),
            old(ci).cur_func.node_arena@[n as int].kind == NodeKind::IR(IRNodeKind::Br),
        ensures
            conv_post(&*old(self), old(ci).snap(), &*final(self), final(ci).snap()),
            res_ok(old(ci).cur_func, n, r, final(ci).machine_inst_arena@),
            r == Some((final(ci).machine_inst_arena@.len() - 1) as usize),
            inst_is(
                final(ci).machine_inst_arena@.last(),
                MachineOpcode::JMP,
                seq![],
                seq![MachineOperand::Branch(target(&*old(self), old(ci).cur_func, n, 0))],
                seq![],
                seq![],
                old(ci).cur_bb,
            ),
        decreases k, n, 1nat,
    {
        let ghost c0 = ci.snap();
        let ghost s0 = *self;
        let ghost l = c0.func.node_arena@.len() as nat;
        let d = ci.cur_func;
        let nd = &d.node_arena[n];
        assert(node_ok(d, n));
        proof {
            lemma_appended_refl(c0);
        }
        let b = match d.node_arena[nd.operand[0]].kind {
            NodeKind::Operand(OperandNodeKind::BasicBlock(b)) => b,
            _ => unreached(),
        };
        let mb = self.get_machine_bb(b);
        let ops = vec![MachineOperand::Branch(mb)];
        assert(ops@ =~= seq![MachineOperand::Branch(mb)]);
        let defs: Vec<MachineRegister> = Vec::new();
        assert(defs@ =~= seq![]);
        let inst = inst_with(MachineOpcode::JMP, ops, defs, ci.cur_bb);
        let ghost c1 = ci.snap();
        let id = emit(ci, inst);
        proof {
            lemma_post_emit(&s0, c0, &*self, c1, ci.snap());
        }
        Some(id)
    }

    fn convert_br_cond(&mut self, tys: &Types, ci: &mut ConversionInfo, n: usize, Ghost(k): Ghost<nat>) -> (r: Option<usize>)
        requires
            conv_pre(&*old(self), old(ci).snap(), n, k),
            old(ci).cur_func.node_arena@[n as int].kind == NodeKind::IR(IRNodeKind::BrCond),
        ensures
            conv_post(&*old(self), old(ci).snap(), &*final(self), final(ci).snap()),
            res_ok(old(ci).cur_func, n, r, final(ci).machine_inst_arena@),
            r == Some((final(ci).machine_inst_arena@.len() - 1) as usize),
            inst_is(
                final(ci).machine_inst_arena@.last(),
                MachineOpcode::BrCond,
                seq![],
                seq![
                    op_value(old(ci).cur_func, final(ci).dag_to_reg@, opnd(old(ci).cur_func, n, 0)),
                    MachineOperand::Branch(target(&*old(self), old(ci).cur_func, n, 1)),
                ],
                seq![],
                seq![],
                old(ci).cur_bb,
            ),
        decreases k, n, 1nat,
    {
        let ghost c0 = ci.snap();
        let ghost s0 = *self;
        let ghost l = c0.func.node_arena@.len() as nat;
        let d = ci.cur_func;
        let nd = &d.node_arena[n];
        assert(node_ok(d, n));
        proof {
            lemma_appended_refl(c0);
        }
        let ghost c1 = ci.snap();
        let ghost s1 = *self;
        proof {
            lemma_unconverted(c0.regs, c1.regs, n, l);
        }
        let cond = self.normal_operand(tys, ci, nd.operand[0], Ghost(unconverted(ci.dag_to_reg@, l)));
        proof {
            lemma_post_trans(&s0, c0, &s1, c1, &*self, ci.snap());
        }
        let b = match d.node_arena[nd.operand[1]].kind {
            NodeKind::Operand(OperandNodeKind::BasicBlock(b)) => b,
            _ => unreached(),
        };
        let mb = self.get_machine_bb(b);
        let ops = vec![cond, MachineOperand::Branch(mb)];
        assert(ops@ =~= seq![cond, MachineOperand::Branch(mb)]);
        let defs: Vec<MachineRegister> = Vec::new();
        assert(defs@ =~= seq![]);
        let inst = inst_with(MachineOpcode::BrCond, ops, defs, ci.cur_bb);
        let ghost c2 = ci.snap();
        let id = emit(ci, inst);
        proof {
            lemma_post_emit(&s0, c0, &*self, c2, ci.snap());
            lemma_op_value_kept(d, c2, ci.snap(), nd.operand@[0]);
        }
        Some(id)
    }

    fn convert_brcc(&mut self, tys: &Types, ci: &mut ConversionInfo, n: usize, Ghost(k): Ghost<nat>) -> (r: Option<usize>)
        requires
            conv_pre(&*old(self), old(ci).snap(), n, k),
            old(ci).cur_func.node_arena@[n as int].kind == NodeKind::IR(IRNodeKind::Brcc),
        ensures
            conv_post(&*old(self), old(ci).snap(), &*final(self), final(ci).snap()),
            res_ok(old(ci).cur_func, n, r, final(ci).machine_inst_arena@),
            r == Some((final(ci).machine_inst_arena@.len() - 1) as usize),
            final(ci).machine_inst_arena@.len() >= 2,
            ({
                let d = old(ci).cur_func;
                let a = final(ci).machine_inst_arena@;
                let v1 = op_value(d, final(ci).dag_to_reg@, opnd(d, n, 1));
                let v2 = op_value(d, final(ci).dag_to_reg@, opnd(d, n, 2));
                &&& compares(a[a.len() - 2].opcode, v1, v2)
                &&& inst_is(
                    a[a.len() - 2],
                    if v2 is Constant {
                        MachineOpcode::CMPri
                    } else {
                        MachineOpcode::CMPrr
                    },
                    seq![],
                    seq![v1, v2],
                    seq![],
                    seq![],
                    old(ci).cur_bb,
                )
                &&& inst_is(
                    a.last(),
                    jcc_opcode(cond_of(d, opnd(d, n, 0))),
                    seq![],
                    seq![MachineOperand::Branch(target(&*old(self), d, n, 3))],
                    seq![],
                    seq![],
                    old(ci).cur_bb,
                )
            }),
        decreases k, n, 1nat,
    {
        let ghost c0 = ci.snap();
        let ghost s0 = *self;
        let ghost l = c0.func.node_arena@.len() as nat;
        let d = ci.cur_func;
        let nd = &d.node_arena[n];
        assert(node_ok(d, n));
        proof {
            lemma_appended_refl(c0);
        }
        let ghost c1 = ci.snap();
        let ghost s1 = *self;
        proof {
            lemma_unconverted(c0.regs, c1.regs, n, l);
        }
        let op0 = self.normal_operand(tys, ci, nd.operand[1], Ghost(unconverted(ci.dag_to_reg@, l)));
        proof {
            lemma_post_trans(&s0, c0, &s1, c1, &*self, ci.snap());
        }
        let ghost c2 = ci.snap();
        let ghost s2 = *self;
        proof {
            lemma_unconverted(c0.regs, c2.regs, n, l);
        }
        let op1 = self.normal_operand(tys, ci, nd.operand[2], Ghost(unconverted(ci.dag_to_reg@, l)));
        proof {
            lemma_post_trans(&s0, c0, &s2, c2, &*self, ci.snap());
            lemma_erase_op(op0, op_shape(d, nd.operand@[1]));
            lemma_erase_op(op1, op_shape(d, nd.operand@[2]));
        }
        let test_op = if matches!(op0, MachineOperand::Register(_)) && matches!(op1, MachineOperand::Constant(_)) {
            MachineOpcode::CMPri
        } else if matches!(op0, MachineOperand::Register(_)) && matches!(op1, MachineOperand::Register(_)) {
            MachineOpcode::CMPrr
        } else {
            unreached()
        };
        let ops1 = vec![op0, op1];
        assert(ops1@ =~= seq![op0, op1]);
        let defs1: Vec<MachineRegister> = Vec::new();
        assert(defs1@ =~= seq![]);
        let i1 = inst_with(test_op, ops1, defs1, ci.cur_bb);
        let ghost c3 = ci.snap();
        let _ = emit(ci, i1);
        proof {
            lemma_post_emit(&s0, c0, &*self, c3, ci.snap());
        }
        let jcc = match d.node_arena[nd.operand[0]].kind {
            NodeKind::Operand(OperandNodeKind::CondKind(CondKind::Eq)) => MachineOpcode::JE,
            NodeKind::Operand(OperandNodeKind::CondKind(CondKind::Le)) => MachineOpcode::JLE,
            NodeKind::Operand(OperandNodeKind::CondKind(CondKind::Lt)) => MachineOpcode::JL,
            _ => unreached(),
        };
        let b = match d.node_arena[nd.operand[3]].kind {
            NodeKind::Operand(OperandNodeKind::BasicBlock(b)) => b,
            _ => unreached(),
        };
        let mb = self.get_machine_bb(b);
        let ops2 = vec![MachineOperand::Branch(mb)];
        assert(ops2@ =~= seq![MachineOperand::Branch(mb)]);
        let defs2: Vec<MachineRegister> = Vec::new();
        assert(defs2@ =~= seq![]);
        let i2 = inst_with(jcc, ops2, defs2, ci.cur_bb);
        let ghost c4 = ci.snap();
        let id = emit(ci, i2);
        proof {
            lemma_post_emit(&s0, c0, &*self, c4, ci.snap());
            let cf = ci.snap();
            lemma_appended_trans(c3, c4, cf);
            lemma_appended_trans(c2, c3, cf);
            lemma_op_value_kept(d, c2, cf, nd.operand@[1]);
            lemma_op_value_kept(d, c3, cf, nd.operand@[2]);
            assert(cf.arena[cf.arena.len() - 2] == i1);
        }
        Some(id)
    }
}

} // verus!

verus! {

impl MIConverter {
    /// Converts node `node`, unless it was converted before, and then the
    /// rest of its chain; gives the register that `node` yields, if any.
    /// The instructions selected for `node` (`selected`) stand in the arena
    /// afterwards, followed by those of the rest of its chain.
    pub fn convert_dag(&mut self, tys: &Types, conv_info: &mut ConversionInfo, node: usize) -> (r: Option<MachineRegister>)
        requires
            conv_inv(&*old(self), old(conv_info).snap()),
            node < old(conv_info).cur_func.node_arena@.len(),
        ensures
            conv_post(&*old(self), old(conv_info).snap(), &*final(self), final(conv_info).snap()),
            final(conv_info).dag_to_reg@.contains_key(node),
            r == final(conv_info).dag_to_reg@[node],
            r is Some <==> yields_reg(old(conv_info).cur_func, node),
            r matches Some(x) ==> erase(x) == reg_shape(old(conv_info).cur_func, node),
            old(conv_info).dag_to_reg@.contains_key(node) ==> final(conv_info).snap() == old(conv_info).snap() && *final(self)
                == *old(self),
            !old(conv_info).dag_to_reg@.contains_key(node) && !old(self).node_id_to_machine_inst_id@.contains_key(node)
                ==> exists|cm: ConvSnap, id: Option<usize>|
                #![trigger selected(old(self).dag_bb_to_machine_bb@, old(conv_info).snap(), cm, node, id)]
                selected(old(self).dag_bb_to_machine_bb@, old(conv_info).snap(), cm, node, id) && cm.arena.is_prefix_of(
                    final(conv_info).machine_inst_arena@,
                ),
    {
        let ghost l = conv_info.cur_func.node_arena@.len() as nat;
        self.convert_dag_rec(tys, conv_info, node, Ghost(unconverted(conv_info.dag_to_reg@, l)))
    }

    /// The machine blocks made from the DAG blocks `bs`.
    fn map_blocks(&self, bs: &Vec<usize>) -> (r: Vec<usize>)
        requires
            forall|j: int| 0 <= j < bs@.len() ==> self.dag_bb_to_machine_bb@.contains_key(#[trigger] bs@[j]),
        ensures
            r@ == bs@.map_values(|p: usize| self.dag_bb_to_machine_bb@[p]),
    {
        let mut r: Vec<usize> = Vec::new();
        let mut j: usize = 0;
        while j < bs.len()
            invariant
                0 <= j <= bs@.len(),
                forall|i: int| 0 <= i < bs@.len() ==> self.dag_bb_to_machine_bb@.contains_key(#[trigger] bs@[i]),
                r@ == bs@.take(j as int).map_values(|p: usize| self.dag_bb_to_machine_bb@[p]),
            decreases bs@.len() - j,
        {
            let m = self.get_machine_bb(bs[j]);
            r.push(m);
            proof {
                assert(bs@.take(j + 1) =~= bs@.take(j as int).push(bs@[j as int]));
            }
            j = j + 1;
            assert(r@ =~= bs@.take(j as int).map_values(|p: usize| self.dag_bb_to_machine_bb@[p]));
        }
        assert(bs@.take(bs@.len() as int) =~= bs@);
        r
    }
}

} // verus!

verus! {

/// The instructions of the function fall into its blocks in order:
/// block `k` holds the numbers `starts[k] .. starts[k + 1]`, and those
/// instructions belong to it.
#[verifier::opaque]
pub open spec fn partitioned(blocks: Seq<MachineBasicBlock>, arena: Seq<MachineInstr>, starts: Seq<int>) -> bool {
    &&& starts.len() == blocks.len() + 1
    &&& starts[0] == 0
    &&& starts[blocks.len() as int] == arena.len()
    &&& forall|j: int, m: int| 0 <= j <= m <= blocks.len() ==> #[trigger] starts[j] <= #[trigger] starts[m]
    &&& forall|k: int| 0 <= k < blocks.len() ==> (#[trigger] blocks[k]).iseq@ == new_ids(starts[k], starts[k + 1])
    &&& forall|k: int, i: int|
        #![trigger arena[i], starts[k]]
        0 <= k < blocks.len() && starts[k] <= i < starts[k + 1] ==> arena[i].parent == k
}

proof fn lemma_partition_push(
    blocks: Seq<MachineBasicBlock>,
    blk: MachineBasicBlock,
    a0: Seq<MachineInstr>,
    a1: Seq<MachineInstr>,
    starts: Seq<int>,
)
    requires
        partitioned(blocks, a0, starts),
        a0.len() <= a1.len(),
        forall|i: int| 0 <= i < a0.len() ==> #[trigger] a1[i] == a0[i],
        forall|i: int| a0.len() <= i < a1.len() ==> (#[trigger] a1[i]).parent == blocks.len(),
        blk.iseq@ == new_ids(a0.len() as int, a1.len() as int),
    ensures
        partitioned(blocks.push(blk), a1, starts.push(a1.len() as int)),
{
    reveal(partitioned);
    let s1 = starts.push(a1.len() as int);
    let b1 = blocks.push(blk);
    let k = blocks.len() as int;
    assert forall|j: int, m: int| 0 <= j <= m <= k + 1 implies #[trigger] s1[j] <= #[trigger] s1[m] by {
        if m <= k {
            assert(s1[j] == starts[j] && s1[m] == starts[m]);
            assert(starts[j] <= starts[m]);
        } else if j <= k {
            assert(s1[j] == starts[j]);
            assert(starts[j] <= starts[k]);
        }
    }
    assert forall|j: int| 0 <= j < k + 1 implies (#[trigger] b1[j]).iseq@ == new_ids(s1[j], s1[j + 1]) by {
        if j < k {
            assert(b1[j] == blocks[j]);
            assert(s1[j] == starts[j] && s1[j + 1] == starts[j + 1]);
        }
    }
    assert forall|j: int, i: int|
        #![trigger a1[i], s1[j]]
        0 <= j < k + 1 && s1[j] <= i < s1[j + 1] implies a1[i].parent == j by {
        if j < k {
            assert(s1[j] == starts[j] && s1[j + 1] == starts[j + 1]);
            assert(starts[j + 1] <= starts[k]);
            assert(a1[i] == a0[i]);
            assert(starts[j] <= i < starts[j + 1]);
        }
    }
}

impl MIConverter {
    /// Converts the `k`-th block of the layout: its chain, from its entry,
    /// into instructions appended to `arena`, which make up its sequence.
    fn convert_block(
        &mut self,
        tys: &Types,
        dag_func: &DAGFunction,
        k: usize,
        arena: Vec<MachineInstr>,
        stack_adjust: usize,
        vreg_gen: usize,
    ) -> (r: (MachineBasicBlock, Vec<MachineInstr>, usize, usize))
        requires
            dag_func.wf(),
            k < dag_func.dag_basic_blocks@.len(),
            forall|b: usize| #[trigger] old(self).dag_bb_to_machine_bb@.contains_key(b) <==> dag_func.dag_basic_blocks@.contains(b),
            forall|j: int|
                0 <= j < dag_func.dag_basic_blocks@.len() ==> old(self).dag_bb_to_machine_bb@[#[trigger] dag_func.dag_basic_blocks@[j]]
                    == j,
            insts_ok(dag_func, old(self).node_id_to_machine_inst_id@, arena@),
            forall|m: usize|
                #[trigger] old(self).node_id_to_machine_inst_id@.contains_key(m) && dag_func.node_arena@[m as int].kind
                    == NodeKind::IR(IRNodeKind::Call) ==> stack_adjust >= call_stack_bytes(dag_func, m),
            stack_adjust <= max_call_bytes(dag_func),
        ensures
            final(self).dag_bb_to_machine_bb@ == old(self).dag_bb_to_machine_bb@,
            r.2 <= max_call_bytes(dag_func),
            forall|m: usize|
                #[trigger] final(self).node_id_to_machine_inst_id@.contains_key(m) && dag_func.node_arena@[m as int].kind
                    == NodeKind::IR(IRNodeKind::Call) ==> r.2 >= call_stack_bytes(dag_func, m),
            insts_ok(dag_func, final(self).node_id_to_machine_inst_id@, r.1@),
            arena@.len() <= r.1@.len(),
            forall|i: int| 0 <= i < arena@.len() ==> #[trigger] r.1@[i] == arena@[i],
            forall|i: int| arena@.len() <= i < r.1@.len() ==> (#[trigger] r.1@[i]).parent == k,
            r.0.iseq@ == new_ids(arena@.len() as int, r.1@.len() as int),
            ({
                let db = dag_func.dag_basic_block_arena@[dag_func.dag_basic_blocks@[k as int] as int];
                &&& r.0.pred@ == db.pred@.map_values(|p: usize| old(self).dag_bb_to_machine_bb@[p])
                &&& r.0.succ@ == db.succ@.map_values(|p: usize| old(self).dag_bb_to_machine_bb@[p])
            }),
            r.0.liveness.def@.is_empty(),
            r.0.liveness.live_in@.is_empty(),
            r.0.liveness.live_out@.is_empty(),
            stack_adjust <= r.2,
    {
        let b = dag_func.dag_basic_blocks[k];
        assert(dag_func.dag_basic_blocks@[k as int] == b);
        let db = &dag_func.dag_basic_block_arena[b];
        assert forall|j: int| 0 <= j < db.pred@.len() implies self.dag_bb_to_machine_bb@.contains_key(#[trigger] db.pred@[j]) by {
        }
        assert forall|j: int| 0 <= j < db.succ@.len() implies self.dag_bb_to_machine_bb@.contains_key(#[trigger] db.succ@[j]) by {
        }
        let pred = self.map_blocks(&db.pred);
        let succ = self.map_blocks(&db.succ);
        let entry = db.entry.unwrap();
        assert(self.dag_bb_to_machine_bb@.contains_key(b));
        let mbb = self.get_machine_bb(b);
        let ghost a0 = arena@.len() as int;
        let mut ci = ConversionInfo {
            cur_func: dag_func,
            machine_inst_arena: arena,
            dag_to_reg: fx_map_new(),
            cur_bb: mbb,
            iseq: Vec::new(),
            stack_adjust,
            vreg_gen,
        };
        let ghost c0 = ci.snap();
        assert(conv_inv(&*self, c0));
        let _ = self.convert_dag(tys, &mut ci, entry);
        let ghost cf = ci.snap();
        proof {
            assert(appended(c0, cf));
            assert(c0.iseq =~= Seq::<usize>::empty());
            assert(cf.iseq =~= new_ids(a0, cf.arena.len() as int));
        }
        let ConversionInfo { machine_inst_arena: a2, iseq, stack_adjust: s2, vreg_gen: v2, .. } = ci;
        let blk = MachineBasicBlock {
            iseq,
            pred,
            succ,
            liveness: LivenessInfo { def: vreg_set_new(), live_in: vreg_set_new(), live_out: vreg_set_new() },
        };
        (blk, a2, s2, v2)
    }
}

impl MIConverter {
    /// Converts a DAG function: one machine block per DAG block, in layout
    /// order, with predecessors and successors mapped; each block's chain
    /// converted from its entry into that block; the stack bytes that its
    /// calls need recorded.
    #[verifier::rlimit(60)]
    pub fn convert_function(&mut self, tys: &Types, dag_func: DAGFunction) -> (mf: MachineFunction)
        requires
            dag_func.wf(),
        ensures
            mf.basic_blocks@ == new_ids(0, dag_func.dag_basic_blocks@.len() as int),
            mf.basic_block_arena@.len() == dag_func.dag_basic_blocks@.len(),
            forall|b: usize|
                #[trigger] final(self).dag_bb_to_machine_bb@.contains_key(b) <==> dag_func.dag_basic_blocks@.contains(b),
            forall|k: int|
                0 <= k < dag_func.dag_basic_blocks@.len() ==> final(self).dag_bb_to_machine_bb@[#[trigger] dag_func.dag_basic_blocks@[k]]
                    == k,
            forall|k: int|
                0 <= k < dag_func.dag_basic_blocks@.len() ==> {
                    let db = dag_func.dag_basic_block_arena@[dag_func.dag_basic_blocks@[k] as int];
                    &&& (#[trigger] mf.basic_block_arena@[k]).pred@ == db.pred@.map_values(
                        |p: usize| final(self).dag_bb_to_machine_bb@[p],
                    )
                    &&& mf.basic_block_arena@[k].succ@ == db.succ@.map_values(|p: usize| final(self).dag_bb_to_machine_bb@[p])
                    &&& mf.basic_block_arena@[k].liveness.def@.is_empty()
                    &&& mf.basic_block_arena@[k].liveness.live_in@.is_empty()
                    &&& mf.basic_block_arena@[k].liveness.live_out@.is_empty()
                },
            exists|starts: Seq<int>| partitioned(mf.basic_block_arena@, mf.instr_arena@, starts),
            forall|m: usize|
                #[trigger] final(self).node_id_to_machine_inst_id@.contains_key(m) && dag_func.node_arena@[m as int].kind
                    == NodeKind::IR(IRNodeKind::Call) ==> mf.adjust_byte >= call_stack_bytes(&dag_func, m),
            mf.adjust_byte <= max_call_bytes(&dag_func),
    {
        self.dag_bb_to_machine_bb = fx_map_new();
        self.node_id_to_machine_inst_id = fx_map_new();
        let nb = dag_func.dag_basic_blocks.len();
        let mut order: Vec<usize> = Vec::new();
        let mut k: usize = 0;
        while k < nb
            invariant
                dag_func.wf(),
                nb == dag_func.dag_basic_blocks@.len(),
                0 <= k <= nb,
                order@ == new_ids(0, k as int),
                self.node_id_to_machine_inst_id@.dom().is_empty(),
                forall|j: int| 0 <= j < k ==> #[trigger] self.dag_bb_to_machine_bb@.contains_key(dag_func.dag_basic_blocks@[j])
                    && self.dag_bb_to_machine_bb@[dag_func.dag_basic_blocks@[j]] == j,
                forall|b: usize|
                    #[trigger] self.dag_bb_to_machine_bb@.contains_key(b) ==> dag_func.dag_basic_blocks@.take(k as int).contains(b),
            decreases nb - k,
        {
            let b = dag_func.dag_basic_blocks[k];
            let ghost m_before = self.dag_bb_to_machine_bb@;
            fx_map_insert(&mut self.dag_bb_to_machine_bb, b, k);
            order.push(k);
            proof {
                let lay = dag_func.dag_basic_blocks@;
                assert(self.dag_bb_to_machine_bb@ == m_before.insert(b, k));
                assert(lay[k as int] == b);
                assert(order@ =~= new_ids(0, k + 1));
                assert(lay.take(k + 1) =~= lay.take(k as int).push(b));
                assert forall|j: int| 0 <= j < k + 1 implies #[trigger] self.dag_bb_to_machine_bb@.contains_key(lay[j])
                    && self.dag_bb_to_machine_bb@[lay[j]] == j by {
                    if j < k {
                        assert(lay[j] != lay[k as int]);
                        assert(m_before.contains_key(lay[j]) && m_before[lay[j]] == j);
                    }
                }
                assert forall|b2: usize| #[trigger] self.dag_bb_to_machine_bb@.contains_key(b2) implies lay.take(k + 1).contains(b2) by {
                    if b2 == b {
                        assert(lay.take(k + 1)[k as int] == b);
                    } else {
                        let j = choose|j: int| 0 <= j < lay.take(k as int).len() && lay.take(k as int)[j] == b2;
                        assert(lay.take(k + 1)[j] == b2);
                    }
                }
            }
            k = k + 1;
        }
        proof {
            assert(dag_func.dag_basic_blocks@.take(nb as int) =~= dag_func.dag_basic_blocks@);
            assert forall|b: usize| dag_func.dag_basic_blocks@.contains(b) implies #[trigger] self.dag_bb_to_machine_bb@.contains_key(b) by {
                let j = choose|j: int| 0 <= j < nb && dag_func.dag_basic_blocks@[j] == b;
                assert(self.dag_bb_to_machine_bb@.contains_key(dag_func.dag_basic_blocks@[j]));
            }
        }
        let ghost map0 = self.dag_bb_to_machine_bb@;
        assert forall|j: int| 0 <= j < nb implies map0[#[trigger] dag_func.dag_basic_blocks@[j]] == j by {
            assert(self.dag_bb_to_machine_bb@.contains_key(dag_func.dag_basic_blocks@[j]));
        }
        assert forall|b: usize| #[trigger] map0.contains_key(b) implies dag_func.dag_basic_blocks@.contains(b) by {
            let j = choose|j: int| 0 <= j < dag_func.dag_basic_blocks@.take(nb as int).len() && dag_func.dag_basic_blocks@.take(nb as int)[j] == b;
            assert(dag_func.dag_basic_blocks@[j] == b);
        }
        let mut bb_arena: Vec<MachineBasicBlock> = Vec::new();
        let mut arena: Vec<MachineInstr> = Vec::new();
        let mut stack_adjust: usize = 0;
        let mut vreg_gen: usize = dag_func.vreg_gen;
        let ghost mut starts: Seq<int> = seq![0int];
        proof {
            reveal(partitioned);
            lemma_max_call_bytes_nonneg(&dag_func, dag_func.node_arena@.len() as nat);
        }
        let mut k: usize = 0;
        while k < nb
            invariant
                dag_func.wf(),
                nb == dag_func.dag_basic_blocks@.len(),
                0 <= k <= nb,
                self.dag_bb_to_machine_bb@ == map0,
                forall|b: usize| #[trigger] map0.contains_key(b) <==> dag_func.dag_basic_blocks@.contains(b),
                forall|j: int| 0 <= j < nb ==> map0[#[trigger] dag_func.dag_basic_blocks@[j]] == j,
                insts_ok(&dag_func, self.node_id_to_machine_inst_id@, arena@),
                forall|m: usize|
                    #[trigger] self.node_id_to_machine_inst_id@.contains_key(m) && dag_func.node_arena@[m as int].kind
                        == NodeKind::IR(IRNodeKind::Call) ==> stack_adjust >= call_stack_bytes(&dag_func, m),
                stack_adjust <= max_call_bytes(&dag_func),
                bb_arena@.len() == k,
                partitioned(bb_arena@, arena@, starts),
                forall|j: int|
                    0 <= j < k ==> {
                        let db = dag_func.dag_basic_block_arena@[dag_func.dag_basic_blocks@[j] as int];
                        &&& (#[trigger] bb_arena@[j]).pred@ == db.pred@.map_values(|p: usize| map0[p])
                        &&& bb_arena@[j].succ@ == db.succ@.map_values(|p: usize| map0[p])
                        &&& bb_arena@[j].liveness.def@.is_empty()
                        &&& bb_arena@[j].liveness.live_in@.is_empty()
                        &&& bb_arena@[j].liveness.live_out@.is_empty()
                    },
            decreases nb - k,
        {
            let a_len = arena.len();
            let ghost a_old = arena@;
            let ghost bbs0 = bb_arena@;
            let (blk, a2, s2, v2) = self.convert_block(tys, &dag_func, k, arena, stack_adjust, vreg_gen);
            arena = a2;
            stack_adjust = s2;
            vreg_gen = v2;
            let ghost blk_view = blk;
            bb_arena.push(blk);
            proof {
                assert(bb_arena@ == bbs0.push(blk_view));
                lemma_partition_push(bbs0, blk_view, a_old, arena@, starts);
                starts = starts.push(arena@.len() as int);
            }
            k = k + 1;
        }
        let mf = MachineFunction {
            basic_blocks: order,
            basic_block_arena: bb_arena,
            instr_arena: arena,
            vreg_gen,
            adjust_byte: stack_adjust,
        };
        assert(partitioned(mf.basic_block_arena@, mf.instr_arena@, starts));
        mf
    }
}

} // verus!

verus! {

impl MIConverter {
    /// Converts every function of a DAG module, in order.
    pub fn convert_module(&mut self, module: DAGModule) -> (mm: MachineModule)
        requires
            forall|i: int| 0 <= i < module.functions@.len() ==> (#[trigger] module.functions@[i]).wf(),
        ensures
            mm.functions@.len() == module.functions@.len(),
            forall|i: int|
                0 <= i < mm.functions@.len() ==> (#[trigger] mm.functions@[i]).basic_blocks@ == new_ids(
                    0,
                    module.functions@[i].dag_basic_blocks@.len() as int,
                ),
    {
        let DAGModule { functions, types } = module;
        let ghost fs0 = functions@;
        let mut fs = functions;
        let mut out: Vec<MachineFunction> = Vec::new();
        while fs.len() > 0
            invariant
                out@.len() + fs@.len() == fs0.len(),
                fs@ == fs0.skip(out@.len() as int),
                forall|i: int| 0 <= i < fs0.len() ==> (#[trigger] fs0[i]).wf(),
                forall|i: int|
                    0 <= i < out@.len() ==> (#[trigger] out@[i]).basic_blocks@ == new_ids(0, fs0[i].dag_basic_blocks@.len() as int),
            decreases fs@.len(),
        {
            let ghost j = out@.len() as int;
            let f = fs.remove(0);
            assert(f == fs0[j]);
            let mf = self.convert_function(&types, f);
            out.push(mf);
            assert(fs@ =~= fs0.skip(out@.len() as int));
        }
        MachineModule { functions: out }
    }
}

} // verus!

verus! {

/// Operand `i` of node `n`.
pub open spec fn opnd(d: &DAGFunction, n: usize, i: int) -> usize {
    d.node_arena@[n as int].operand@[i]
}

/// The register that a copy node copies into: that of its first operand.
pub open spec fn copy_dst(d: &DAGFunction, n: usize) -> MachineRegister {
    match d.node_arena@[opnd(d, n, 0) as int].kind {
        NodeKind::Operand(OperandNodeKind::Register(r)) => r,
        _ => class_reg(RegisterClassKind::GR32, 0, None),
    }
}

/// The condition that node `m` names.
pub open spec fn cond_of(d: &DAGFunction, m: usize) -> CondKind {
    match d.node_arena@[m as int].kind {
        NodeKind::Operand(OperandNodeKind::CondKind(c)) => c,
        _ => CondKind::Eq,
    }
}

pub open spec fn setcc_opcode(c: CondKind) -> MachineOpcode {
    match c {
        CondKind::Eq => MachineOpcode::Seteq,
        CondKind::Le => MachineOpcode::Setle,
        CondKind::Lt => MachineOpcode::Setlt,
    }
}

pub open spec fn jcc_opcode(c: CondKind) -> MachineOpcode {
    match c {
        CondKind::Eq => MachineOpcode::JE,
        CondKind::Le => MachineOpcode::JLE,
        CondKind::Lt => MachineOpcode::JL,
    }
}

/// The move chosen to load an operand into a register moves that operand:
/// its opcode names the operand's form and width, and one is chosen for
/// every register, immediate and stack slot of 32 or 64 bits and for every
/// double.
pub proof fn lemma_mov_rx_loads(x: MachineOperand)
    ensures
        spec_mov_rx(x) matches Some(op) ==> loads(op, x),
        x.spec_get_type() == Some(Type::F64) ==> spec_mov_rx(x) is Some,
        x matches MachineOperand::Register(r) && (r.bits == 32 || r.bits == 64) ==> spec_mov_rx(x) is Some,
        x matches MachineOperand::FrameIndex(f) && (f.bits == 32 || f.bits == 64) ==> spec_mov_rx(x) is Some,
        x is Constant ==> spec_mov_rx(x) is Some,
{
}

/// The 32-bit move chosen to load an operand into a register moves that
/// operand, and there is one only for 32 bits.
pub proof fn lemma_mov_n_rx_loads(bit: usize, x: MachineOperand)
    ensures
        spec_mov_n_rx(bit, x) matches Some(op) ==> bit == 32 && (op == MachineOpcode::MOVrr32 && x is Register || op
            == MachineOpcode::MOVri32 && x is Constant),
        bit == 32 && (x is Register || x is Constant) ==> spec_mov_n_rx(bit, x) is Some,
{
}

/// The store chosen for an operand stores that operand, and one is chosen
/// for every 32-bit register and 32-bit immediate.
pub proof fn lemma_mov_mx_stores(x: MachineOperand)
    ensures
        spec_mov_mx(x) matches Some(op) ==> stores(op, x),
        x matches MachineOperand::Register(r) && r.bits == 32 ==> spec_mov_mx(x) is Some,
        x matches MachineOperand::Constant(MachineConstant::Int32(_)) ==> spec_mov_mx(x) is Some,
{
}

/// The set instruction chosen for a condition computes that condition: on
/// any operands, it sets its result exactly when the condition holds.
pub proof fn lemma_setcc_meaning(c: CondKind)
    ensures
        forall|x: int, y: int| #[trigger] set_result(setcc_opcode(c), x, y) == Some(cond_holds(c, x, y)),
{
}

/// The conditional jump chosen for a condition is taken exactly when the
/// condition holds of the compared operands.
pub proof fn lemma_jcc_meaning(c: CondKind)
    ensures
        forall|x: int, y: int| #[trigger] jump_taken(jcc_opcode(c), x, y) == Some(cond_holds(c, x, y)),
{
}

/// The virtual register number handed out just before the counter
/// reached `v`.
pub open spec fn prev_num(v: usize) -> usize {
    if v == 0 {
        usize::MAX
    } else {
        (v - 1) as usize
    }
}

/// The result registers of an instruction made for a value of type `ty`:
/// a fresh register of its class, the last one handed out before the
/// counter reached `after`, or none.
pub open spec fn fresh_def(ty: Type, after: usize) -> Seq<MachineRegister> {
    match spec_ty2rc(ty) {
        Some(c) => seq![class_reg(c, prev_num(after), None)],
        None => seq![],
    }
}

/// The machine block that operand `i` of node `n` names.
pub open spec fn target(s: &MIConverter, d: &DAGFunction, n: usize, i: int) -> usize {
    s.dag_bb_to_machine_bb@[bb_of(d, opnd(d, n, i))]
}

/// The operands of the phi made from node `n`: each value, then the
/// machine block it comes from.
pub open spec fn phi_operands(
    bbs: Map<usize, usize>,
    d: &DAGFunction,
    regs: Map<usize, Option<MachineRegister>>,
    n: usize,
) -> Seq<MachineOperand> {
    Seq::new(
        d.node_arena@[n as int].operand@.len(),
        |j: int|
            if j % 2 == 0 {
                op_value(d, regs, opnd(d, n, j))
            } else {
                MachineOperand::Branch(bbs[bb_of(d, opnd(d, n, j))])
            },
    )
}

/// The register that a tie names among results `def` and operands
/// `operand`.
pub open spec fn tie_pick(def: Seq<MachineRegister>, operand: Seq<MachineOperand>, x: DefOrUseReg) -> MachineRegister {
    match x {
        DefOrUseReg::Def(i) => def[i as int],
        DefOrUseReg::Use(i) => match operand[i as int] {
            MachineOperand::Register(r) => r,
            _ => class_reg(RegisterClassKind::GR32, 0, None),
        },
    }
}

/// The operands of the machine instruction made from node `n`.
pub open spec fn mi_operands(d: &DAGFunction, regs: Map<usize, Option<MachineRegister>>, n: usize) -> Seq<MachineOperand> {
    Seq::new(d.node_arena@[n as int].operand@.len(), |j: int| op_value(d, regs, opnd(d, n, j)))
}

/// The values of the arguments of call node `n`.
pub open spec fn call_args(d: &DAGFunction, regs: Map<usize, Option<MachineRegister>>, n: usize) -> Seq<MachineOperand> {
    Seq::new((d.node_arena@[n as int].operand@.len() - 1) as nat, |j: int| op_value(d, regs, opnd(d, n, j + 1)))
}

/// The register class of an argument value.
pub open spec fn arg_class(v: MachineOperand) -> RegisterClassKind {
    spec_ty2rc(v.spec_get_type()->Some_0)->Some_0
}

/// The register that passes argument `j`, value `v`, if one does.
pub open spec fn arg_preg(v: MachineOperand, j: int) -> Option<PhysReg> {
    arg_class(v).spec_get_nth_arg_reg(j as usize)
}

/// The argument registers of the first `m` arguments, in order.
pub open spec fn arg_regs(vals: Seq<MachineOperand>, m: int) -> Seq<MachineRegister>
    decreases m,
{
    if m <= 0 {
        seq![]
    } else {
        let prev = arg_regs(vals, m - 1);
        match arg_preg(vals[m - 1], m - 1) {
            Some(p) => prev.push(class_reg(arg_class(vals[m - 1]), 0, Some(p))),
            None => prev,
        }
    }
}

/// The number of the first `m` arguments passed on the stack.
pub open spec fn stack_args(vals: Seq<MachineOperand>, m: int) -> nat
    decreases m,
{
    if m <= 0 {
        0
    } else {
        stack_args(vals, m - 1) + if arg_preg(vals[m - 1], m - 1) is None {
            1nat
        } else {
            0nat
        }
    }
}

/// Instruction `i` passes argument `j`: a move into its argument register
/// (the address of a stack slot is taken off `RBP`), or a store at its
/// 8-byte slot off `RSP`.
pub open spec fn arg_inst_ok(i: MachineInstr, vals: Seq<MachineOperand>, j: int, bb: usize) -> bool {
    let v = vals[j];
    match arg_preg(v, j) {
        Some(p) => {
            let r = class_reg(arg_class(v), 0, Some(p));
            if v is FrameIndex {
                inst_is(
                    i,
                    MachineOpcode::LEAr64m,
                    seq![r],
                    seq![
                        MachineOperand::Register(class_reg(RegisterClassKind::GR64, 0, Some(PhysReg::RBP))),
                        v,
                        MachineOperand::Empty,
                        MachineOperand::Empty,
                    ],
                    seq![],
                    seq![],
                    bb,
                )
            } else {
                inst_is(i, spec_mov_rx(v)->Some_0, seq![r], seq![v], seq![], seq![], bb)
            }
        },
        None => inst_is(
            i,
            spec_mov_mx(v)->Some_0,
            seq![],
            seq![
                MachineOperand::Register(class_reg(RegisterClassKind::GR64, 0, Some(PhysReg::RSP))),
                MachineOperand::Empty,
                MachineOperand::Empty,
                MachineOperand::Constant(MachineConstant::Int32((8 * stack_args(vals, j)) as i32)),
                v,
            ],
            seq![],
            seq![],
            bb,
        ),
    }
}

/// The arguments of call node `n` as operands, register numbers set
/// aside.
pub open spec fn call_arg_shapes(d: &DAGFunction, n: usize) -> Seq<MachineOperand> {
    Seq::new((d.node_arena@[n as int].operand@.len() - 1) as nat, |j: int| op_shape(d, opnd(d, n, j + 1)))
}

/// The bytes of stack that call node `n` passes arguments in.
pub open spec fn call_stack_bytes(d: &DAGFunction, n: usize) -> int {
    8 * (stack_args(call_arg_shapes(d, n), call_arg_shapes(d, n).len() as int) as int)
}

/// The largest stack bytes that any of the first `k` nodes of `d` that are
/// calls passes arguments in (0 without calls).
pub open spec fn max_call_bytes_upto(d: &DAGFunction, k: nat) -> int
    decreases k,
{
    if k == 0 {
        0
    } else {
        let p = max_call_bytes_upto(d, (k - 1) as nat);
        let m = (k - 1) as usize;
        if d.node_arena@[m as int].kind == NodeKind::IR(IRNodeKind::Call) && call_stack_bytes(d, m) > p {
            call_stack_bytes(d, m)
        } else {
            p
        }
    }
}

/// The largest stack bytes that any call of `d` passes arguments in.
pub open spec fn max_call_bytes(d: &DAGFunction) -> int {
    max_call_bytes_upto(d, d.node_arena@.len() as nat)
}

proof fn lemma_max_call_bytes(d: &DAGFunction, m: usize, k: nat)
    requires
        m < k,
        d.node_arena@[m as int].kind == NodeKind::IR(IRNodeKind::Call),
    ensures
        call_stack_bytes(d, m) <= max_call_bytes_upto(d, k),
        0 <= max_call_bytes_upto(d, k),
    decreases k,
{
    if m < k - 1 {
        lemma_max_call_bytes(d, m, (k - 1) as nat);
    } else if k > 1 {
        lemma_max_call_bytes_nonneg(d, (k - 1) as nat);
    }
}

proof fn lemma_max_call_bytes_nonneg(d: &DAGFunction, k: nat)
    ensures
        0 <= max_call_bytes_upto(d, k),
    decreases k,
{
    if k > 0 {
        lemma_max_call_bytes_nonneg(d, (k - 1) as nat);
    }
}

proof fn lemma_max_call_bytes_attained(d: &DAGFunction, k: nat)
    requires
        k <= d.node_arena@.len(),
    ensures
        max_call_bytes_upto(d, k) == 0 || exists|m: usize|
            m < k && d.node_arena@[m as int].kind == NodeKind::IR(IRNodeKind::Call) && #[trigger] call_stack_bytes(d, m)
                == max_call_bytes_upto(d, k),
    decreases k,
{
    if k > 0 {
        lemma_max_call_bytes_attained(d, (k - 1) as nat);
        let m = (k - 1) as usize;
        if d.node_arena@[m as int].kind == NodeKind::IR(IRNodeKind::Call) && call_stack_bytes(d, m) > max_call_bytes_upto(
            d,
            (k - 1) as nat,
        ) {
            assert(call_stack_bytes(d, m) == max_call_bytes_upto(d, k));
        } else if max_call_bytes_upto(d, (k - 1) as nat) != 0 {
            let w = choose|w: usize|
                w < k - 1 && d.node_arena@[w as int].kind == NodeKind::IR(IRNodeKind::Call) && #[trigger] call_stack_bytes(d, w)
                    == max_call_bytes_upto(d, (k - 1) as nat);
            assert(call_stack_bytes(d, w) == max_call_bytes_upto(d, k));
        }
    }
}

/// `max_call_bytes` is the largest stack need among the calls of the
/// function, and 0 when it has none: no call needs more, and unless it is
/// 0 some call needs exactly that much.
pub proof fn lemma_max_call_bytes_is_max(d: &DAGFunction)
    ensures
        forall|m: usize|
            m < d.node_arena@.len() && d.node_arena@[m as int].kind == NodeKind::IR(IRNodeKind::Call) ==> #[trigger] call_stack_bytes(
                d,
                m,
            ) <= max_call_bytes(d),
        max_call_bytes(d) == 0 || exists|m: usize|
            m < d.node_arena@.len() && d.node_arena@[m as int].kind == NodeKind::IR(IRNodeKind::Call) && #[trigger] call_stack_bytes(
                d,
                m,
            ) == max_call_bytes(d),
        max_call_bytes(d) >= 0,
{
    lemma_max_call_bytes_attained(d, d.node_arena@.len() as nat);
    lemma_max_call_bytes_nonneg(d, d.node_arena@.len() as nat);
    assert forall|m: usize|
        m < d.node_arena@.len() && d.node_arena@[m as int].kind == NodeKind::IR(IRNodeKind::Call) implies #[trigger] call_stack_bytes(
        d,
        m,
    ) <= max_call_bytes(d) by {
        lemma_max_call_bytes(d, m, d.node_arena@.len() as nat);
    }
}

proof fn lemma_stack_args_erase(vals: Seq<MachineOperand>, w: Seq<MachineOperand>, m: int)
    requires
        0 <= m <= vals.len(),
        m <= w.len(),
        forall|j: int| 0 <= j < m ==> erase_op(vals[j]) == #[trigger] w[j],
    ensures
        stack_args(vals, m) == stack_args(w, m),
    decreases m,
{
    if m > 0 {
        lemma_stack_args_erase(vals, w, m - 1);
        lemma_erase_op(vals[m - 1], w[m - 1]);
    }
}

proof fn lemma_args_prefix(vals: Seq<MachineOperand>, w: Seq<MachineOperand>, m: int)
    requires
        0 <= m <= vals.len(),
        m <= w.len(),
        forall|j: int| 0 <= j < m ==> vals[j] == w[j],
    ensures
        arg_regs(vals, m) == arg_regs(w, m),
        stack_args(vals, m) == stack_args(w, m),
        stack_args(vals, m) <= m,
    decreases m,
{
    if m > 0 {
        lemma_args_prefix(vals, w, m - 1);
    }
}

proof fn lemma_op_value_kept(d: &DAGFunction, a: ConvSnap, b: ConvSnap, m: usize)
    requires
        appended(a, b),
        normal_ok(d, m),
        yields_reg(d, m) ==> a.regs.contains_key(m),
    ensures
        op_value(d, a.regs, m) == op_value(d, b.regs, m),
{
}

} // verus!

verus! {

/// What converting node `n` (not converted before) makes, from state `c0`
/// to state `c1`, with block map `bbs`: for each kind of node, the
/// instructions that end the arena afterwards and `r`, the one that
/// stands for the node.
pub open spec fn selected(bbs: Map<usize, usize>, c0: ConvSnap, c1: ConvSnap, n: usize, r: Option<usize>) -> bool {
    let d = &c0.func;
    let nd = d.node_arena@[n as int];
    let a = c1.arena;
    let z = a.len() as int;
    let regs = c1.regs;
    let bb = c0.cur_bb;
    let last = Some((z - 1) as usize);
    match nd.kind {
        NodeKind::MI(op) => r == last && a.last().opcode == op && a.last().def@ == fresh_def(nd.ty, c1.vreg_gen)
            && a.last().operand@ == mi_operands(d, regs, n) && a.last().imp_def@ == Seq::<MachineRegister>::empty()
            && a.last().imp_use@ == Seq::<MachineRegister>::empty() && a.last().parent == bb && a.last().tie@.len()
            == nd.tie@.len() && forall|t: int|
            0 <= t < nd.tie@.len() ==> #[trigger] a.last().tie@[t] == (
                tie_pick(a.last().def@, a.last().operand@, nd.tie@[t].0),
                tie_pick(a.last().def@, a.last().operand@, nd.tie@[t].1),
            ),
        NodeKind::IR(IRNodeKind::CopyToReg) => r == last && inst_is(
            a.last(),
            MachineOpcode::Copy,
            seq![copy_dst(d, n)],
            seq![op_value(d, regs, opnd(d, n, 1))],
            seq![],
            seq![],
            bb,
        ),
        NodeKind::IR(IRNodeKind::Phi) => r == last && inst_is(
            a.last(),
            MachineOpcode::Phi,
            fresh_def(nd.ty, c1.vreg_gen),
            phi_operands(bbs, d, regs, n),
            seq![],
            seq![],
            bb,
        ),
        NodeKind::IR(IRNodeKind::Setcc) => r == last && (forall|x: int, y: int|
            #[trigger] set_result(a.last().opcode, x, y) == Some(cond_holds(cond_of(d, opnd(d, n, 0)), x, y)))
            && inst_is(
            a.last(),
            setcc_opcode(cond_of(d, opnd(d, n, 0))),
            fresh_def(nd.ty, c1.vreg_gen),
            seq![op_value(d, regs, opnd(d, n, 1)), op_value(d, regs, opnd(d, n, 2))],
            seq![],
            seq![],
            bb,
        ),
        NodeKind::IR(IRNodeKind::Br) => r == last && inst_is(
            a.last(),
            MachineOpcode::JMP,
            seq![],
            seq![MachineOperand::Branch(bbs[bb_of(d, opnd(d, n, 0))])],
            seq![],
            seq![],
            bb,
        ),
        NodeKind::IR(IRNodeKind::BrCond) => r == last && inst_is(
            a.last(),
            MachineOpcode::BrCond,
            seq![],
            seq![op_value(d, regs, opnd(d, n, 0)), MachineOperand::Branch(bbs[bb_of(d, opnd(d, n, 1))])],
            seq![],
            seq![],
            bb,
        ),
        NodeKind::IR(IRNodeKind::Brcc) => {
            let v1 = op_value(d, regs, opnd(d, n, 1));
            let v2 = op_value(d, regs, opnd(d, n, 2));
            &&& r == last
            &&& z >= 2
            &&& compares(a[z - 2].opcode, v1, v2)
            &&& inst_is(
                a[z - 2],
                if v2 is Constant {
                    MachineOpcode::CMPri
                } else {
                    MachineOpcode::CMPrr
                },
                seq![],
                seq![v1, v2],
                seq![],
                seq![],
                bb,
            )
            &&& forall|x: int, y: int|
                #[trigger] jump_taken(a.last().opcode, x, y) == Some(cond_holds(cond_of(d, opnd(d, n, 0)), x, y))
            &&& inst_is(
                a.last(),
                jcc_opcode(cond_of(d, opnd(d, n, 0))),
                seq![],
                seq![MachineOperand::Branch(bbs[bb_of(d, opnd(d, n, 3))])],
                seq![],
                seq![],
                bb,
            )
        },
        NodeKind::IR(IRNodeKind::Rem) => {
            let eax = class_reg(RegisterClassKind::GR32, c0.vreg_gen, Some(PhysReg::EAX));
            let edx = class_reg(RegisterClassKind::GR32, next_num(c0.vreg_gen), Some(PhysReg::EDX));
            let v1 = op_value(d, regs, opnd(d, n, 0));
            let v2 = op_value(d, regs, opnd(d, n, 1));
            let t = class_reg(RegisterClassKind::GR32, prev_num(prev_num(c1.vreg_gen)), None);
            let c = class_reg(RegisterClassKind::GR32, prev_num(c1.vreg_gen), None);
            &&& r == last
            &&& z >= 5
            &&& inst_is(a[z - 5], spec_mov_n_rx(32, v1)->Some_0, seq![eax], seq![v1], seq![], seq![], bb)
            &&& inst_is(a[z - 4], MachineOpcode::CDQ, seq![], seq![], seq![edx], seq![eax], bb)
            &&& inst_is(a[z - 3], spec_mov_n_rx(32, v2)->Some_0, seq![t], seq![v2], seq![], seq![], bb)
            &&& inst_is(a[z - 2], MachineOpcode::IDIV, seq![], seq![MachineOperand::Register(t)], seq![eax, edx], seq![eax, edx], bb)
            &&& inst_is(a[z - 1], MachineOpcode::Copy, seq![c], seq![MachineOperand::Register(edx)], seq![], seq![], bb)
        },
        NodeKind::IR(IRNodeKind::Ret) => {
            let v = op_value(d, regs, opnd(d, n, 0));
            &&& r == last
            &&& inst_is(a.last(), MachineOpcode::RET, seq![], seq![], seq![], seq![], bb)
            &&& match v.spec_get_type() {
                Some(t) => z >= 2 && inst_is(
                    a[z - 2],
                    spec_mov_rx(v)->Some_0,
                    seq![class_reg(spec_ty2rc(t)->Some_0, 0, Some(spec_ty2rc(t)->Some_0.spec_return_value_register()))],
                    seq![v],
                    seq![],
                    seq![],
                    bb,
                ),
                None => true,
            }
        },
        NodeKind::IR(IRNodeKind::Call) => {
            let vals = call_args(d, regs, n);
            let void = nd.ty == Type::Void;
            let w = if void {
                prev_num(c1.vreg_gen)
            } else {
                prev_num(prev_num(c1.vreg_gen))
            };
            let eax = class_reg(RegisterClassKind::GR32, w, Some(PhysReg::EAX));
            let call_at = if void {
                z - 1
            } else {
                z - 2
            };
            &&& r == last
            &&& exists|pos: Seq<int>|
                #![trigger pos.len()]
                pos.len() == vals.len() && (forall|j: int|
                    0 <= j < vals.len() ==> c0.arena.len() <= #[trigger] pos[j] < call_at && arg_inst_ok(a[pos[j]], vals, j, bb))
                    && (forall|j: int, m: int| 0 <= j < m < vals.len() ==> #[trigger] pos[j] < #[trigger] pos[m])
            &&& c1.stack_adjust >= 8 * stack_args(vals, vals.len() as int)
            &&& call_at >= c0.arena.len()
            &&& inst_is(
                a[call_at],
                MachineOpcode::Call,
                seq![],
                seq![op_value(d, regs, opnd(d, n, 0))],
                if void {
                    seq![]
                } else {
                    seq![eax]
                },
                arg_regs(vals, vals.len() as int),
                bb,
            )
            &&& !void ==> inst_is(
                a[z - 1],
                MachineOpcode::Copy,
                seq![class_reg(RegisterClassKind::GR32, prev_num(c1.vreg_gen), None)],
                seq![MachineOperand::Register(eax)],
                seq![],
                seq![],
                bb,
            )
        },
        NodeKind::IR(IRNodeKind::CopyToLiveOut) => true,
        _ => r is None && c1 == c0,
    }
}

} // verus!
