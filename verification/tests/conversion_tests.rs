use cilk::dag::{
    CondKind, ConstantKind, DAGBasicBlock, DAGFunction, DAGModule, DAGNode, DefOrUseReg, IRNodeKind, NodeKind,
    OperandNodeKind,
};
use cilk::machine::{MachineConstant, MachineInstr, MachineOpcode, MachineOperand, MachineRegister, PhysReg};
use cilk::mc_convert::MIConverter;
use cilk::types::{Type, Types};

fn node(kind: NodeKind, operand: Vec<usize>, ty: Type, next: Option<usize>) -> DAGNode {
    DAGNode { kind, operand, ty, next, tie: vec![] }
}

fn konst(i: i32) -> DAGNode {
    node(NodeKind::Operand(OperandNodeKind::Constant(ConstantKind::Int32(i))), vec![], Type::i32, None)
}

fn vreg(v: usize) -> MachineRegister {
    MachineRegister { vreg: v, ty: Type::i32, bits: 32, phys: None }
}

fn phys32(v: usize, p: PhysReg) -> MachineRegister {
    MachineRegister { vreg: v, ty: Type::i32, bits: 32, phys: Some(p) }
}

fn block(pred: Vec<usize>, succ: Vec<usize>, entry: usize) -> DAGBasicBlock {
    DAGBasicBlock { pred, succ, entry: Some(entry) }
}

fn check(i: &MachineInstr, opcode: MachineOpcode, def: Vec<MachineRegister>, operand: Vec<MachineOperand>) {
    assert_eq!(i.opcode, opcode);
    assert_eq!(i.def, def);
    assert_eq!(i.operand, operand);
}

/// entry; r7 = copy 42; ret r7
fn copy_and_return() -> DAGFunction {
    DAGFunction {
        dag_basic_blocks: vec![0],
        dag_basic_block_arena: vec![block(vec![], vec![], 2)],
        node_arena: vec![
            konst(42),
            node(NodeKind::Operand(OperandNodeKind::Register(vreg(7))), vec![], Type::i32, None),
            node(NodeKind::IR(IRNodeKind::Entry), vec![], Type::Void, Some(3)),
            node(NodeKind::IR(IRNodeKind::CopyToReg), vec![1, 0], Type::i32, Some(4)),
            node(NodeKind::IR(IRNodeKind::Ret), vec![1], Type::Void, None),
        ],
        vreg_gen: 10,
    }
}

#[test]
fn copy_to_reg_and_ret_select_copy_move_and_ret() {
    let tys = Types::new();
    let mut c = MIConverter::new();
    let mf = c.convert_function(&tys, copy_and_return());
    assert_eq!(mf.basic_blocks, vec![0]);
    assert_eq!(mf.basic_block_arena[0].iseq, vec![0, 1, 2]);
    let a = &mf.instr_arena;
    assert_eq!(a.len(), 3);
    check(&a[0], MachineOpcode::Copy, vec![vreg(7)], vec![MachineOperand::Constant(MachineConstant::Int32(42))]);
    check(&a[1], MachineOpcode::MOVrr32, vec![phys32(0, PhysReg::EAX)], vec![MachineOperand::Register(vreg(7))]);
    check(&a[2], MachineOpcode::RET, vec![], vec![]);
    assert!(a.iter().all(|i| i.parent == 0));
    assert_eq!(mf.vreg_gen, 10);
    assert_eq!(mf.adjust_byte, 0);
}

/// entry; r = call f(1, .., 7); ret r
fn call_with_seven_args() -> DAGFunction {
    let mut nodes: Vec<DAGNode> = (1..=7).map(konst).collect();
    nodes.push(node(NodeKind::Operand(OperandNodeKind::Address(3)), vec![], Type::Void, None));
    nodes.push(node(NodeKind::IR(IRNodeKind::Entry), vec![], Type::Void, Some(9)));
    nodes.push(node(NodeKind::IR(IRNodeKind::Call), vec![7, 0, 1, 2, 3, 4, 5, 6], Type::i32, Some(10)));
    nodes.push(node(NodeKind::IR(IRNodeKind::Ret), vec![9], Type::Void, None));
    DAGFunction {
        dag_basic_blocks: vec![0],
        dag_basic_block_arena: vec![block(vec![], vec![], 8)],
        node_arena: nodes,
        vreg_gen: 100,
    }
}

#[test]
fn call_passes_six_args_in_registers_and_the_rest_on_the_stack() {
    let tys = Types::new();
    let mut c = MIConverter::new();
    let mf = c.convert_function(&tys, call_with_seven_args());
    let a = &mf.instr_arena;
    assert_eq!(a.len(), 11);
    let regs = [PhysReg::EDI, PhysReg::ESI, PhysReg::EDX, PhysReg::ECX, PhysReg::R8D, PhysReg::R9D];
    for (i, p) in regs.iter().enumerate() {
        check(
            &a[i],
            MachineOpcode::MOVri32,
            vec![phys32(0, *p)],
            vec![MachineOperand::Constant(MachineConstant::Int32(i as i32 + 1))],
        );
    }
    let rsp = MachineRegister { vreg: 0, ty: Type::i64, bits: 64, phys: Some(PhysReg::RSP) };
    check(
        &a[6],
        MachineOpcode::MOVmi32,
        vec![],
        vec![
            MachineOperand::Register(rsp),
            MachineOperand::Empty,
            MachineOperand::Empty,
            MachineOperand::Constant(MachineConstant::Int32(0)),
            MachineOperand::Constant(MachineConstant::Int32(7)),
        ],
    );
    check(&a[7], MachineOpcode::Call, vec![], vec![MachineOperand::Address(3)]);
    assert_eq!(a[7].imp_def, vec![phys32(100, PhysReg::EAX)]);
    assert_eq!(a[7].imp_use, regs.iter().map(|p| phys32(0, *p)).collect::<Vec<_>>());
    check(&a[8], MachineOpcode::Copy, vec![vreg(101)], vec![MachineOperand::Register(phys32(100, PhysReg::EAX))]);
    check(&a[9], MachineOpcode::MOVrr32, vec![phys32(0, PhysReg::EAX)], vec![MachineOperand::Register(vreg(101))]);
    check(&a[10], MachineOpcode::RET, vec![], vec![]);
    assert_eq!(mf.adjust_byte, 8);
    assert_eq!(mf.vreg_gen, 102);
}

/// b0: entry; t = r1 % 3; if t < 3 goto b1; goto b1
/// b1: entry; p = phi [r1, b0]; ret p
fn rem_branch_phi() -> DAGFunction {
    DAGFunction {
        dag_basic_blocks: vec![0, 1],
        dag_basic_block_arena: vec![block(vec![], vec![1], 4), block(vec![0], vec![], 9)],
        node_arena: vec![
            node(NodeKind::Operand(OperandNodeKind::Register(vreg(1))), vec![], Type::i32, None),
            konst(3),
            node(NodeKind::Operand(OperandNodeKind::BasicBlock(1)), vec![], Type::Void, None),
            node(NodeKind::Operand(OperandNodeKind::CondKind(CondKind::Lt)), vec![], Type::Void, None),
            node(NodeKind::IR(IRNodeKind::Entry), vec![], Type::Void, Some(5)),
            node(NodeKind::IR(IRNodeKind::Rem), vec![0, 1], Type::i32, Some(6)),
            node(NodeKind::IR(IRNodeKind::Brcc), vec![3, 5, 1, 2], Type::Void, Some(7)),
            node(NodeKind::IR(IRNodeKind::Br), vec![2], Type::Void, None),
            node(NodeKind::Operand(OperandNodeKind::BasicBlock(0)), vec![], Type::Void, None),
            node(NodeKind::IR(IRNodeKind::Entry), vec![], Type::Void, Some(10)),
            node(NodeKind::IR(IRNodeKind::Phi), vec![0, 8], Type::i32, Some(11)),
            node(NodeKind::IR(IRNodeKind::Ret), vec![10], Type::Void, None),
        ],
        vreg_gen: 50,
    }
}

#[test]
fn rem_brcc_br_and_phi_are_selected_block_by_block() {
    let tys = Types::new();
    let mut c = MIConverter::new();
    let mf = c.convert_function(&tys, rem_branch_phi());
    assert_eq!(mf.basic_blocks, vec![0, 1]);
    assert_eq!(mf.basic_block_arena[0].iseq, (0..8).collect::<Vec<usize>>());
    assert_eq!(mf.basic_block_arena[1].iseq, vec![8, 9, 10]);
    assert_eq!(mf.basic_block_arena[0].succ, vec![1]);
    assert_eq!(mf.basic_block_arena[1].pred, vec![0]);
    let a = &mf.instr_arena;
    let eax = phys32(50, PhysReg::EAX);
    let edx = phys32(51, PhysReg::EDX);
    check(&a[0], MachineOpcode::MOVrr32, vec![eax], vec![MachineOperand::Register(vreg(1))]);
    check(&a[1], MachineOpcode::CDQ, vec![], vec![]);
    assert_eq!(a[1].imp_def, vec![edx]);
    assert_eq!(a[1].imp_use, vec![eax]);
    check(&a[2], MachineOpcode::MOVri32, vec![vreg(52)], vec![MachineOperand::Constant(MachineConstant::Int32(3))]);
    check(&a[3], MachineOpcode::IDIV, vec![], vec![MachineOperand::Register(vreg(52))]);
    assert_eq!(a[3].imp_def, vec![eax, edx]);
    assert_eq!(a[3].imp_use, vec![eax, edx]);
    check(&a[4], MachineOpcode::Copy, vec![vreg(53)], vec![MachineOperand::Register(edx)]);
    check(
        &a[5],
        MachineOpcode::CMPri,
        vec![],
        vec![MachineOperand::Register(vreg(53)), MachineOperand::Constant(MachineConstant::Int32(3))],
    );
    check(&a[6], MachineOpcode::JL, vec![], vec![MachineOperand::Branch(1)]);
    check(&a[7], MachineOpcode::JMP, vec![], vec![MachineOperand::Branch(1)]);
    check(&a[8], MachineOpcode::Phi, vec![vreg(54)], vec![MachineOperand::Register(vreg(1)), MachineOperand::Branch(0)]);
    check(&a[9], MachineOpcode::MOVrr32, vec![phys32(0, PhysReg::EAX)], vec![MachineOperand::Register(vreg(54))]);
    check(&a[10], MachineOpcode::RET, vec![], vec![]);
    assert!(a[..8].iter().all(|i| i.parent == 0));
    assert!(a[8..].iter().all(|i| i.parent == 1));
    assert_eq!(mf.vreg_gen, 55);
}

#[test]
fn convert_module_converts_every_function_in_order() {
    let module = DAGModule { functions: vec![copy_and_return(), rem_branch_phi()], types: Types::new() };
    let mut c = MIConverter::new();
    let mm = c.convert_module(module);
    assert_eq!(mm.functions.len(), 2);
    assert_eq!(mm.functions[0].basic_blocks, vec![0]);
    assert_eq!(mm.functions[1].basic_blocks, vec![0, 1]);
    assert_eq!(mm.functions[1].instr_arena.len(), 11);
}

#[test]
fn machine_node_keeps_its_operands_and_ties_its_result() {
    let mut mi = node(NodeKind::MI(MachineOpcode::MOVrr32), vec![0, 1], Type::i32, Some(4));
    mi.tie = vec![(DefOrUseReg::Def(0), DefOrUseReg::Use(0))];
    let f = DAGFunction {
        dag_basic_blocks: vec![0],
        dag_basic_block_arena: vec![block(vec![], vec![], 2)],
        node_arena: vec![
            node(NodeKind::Operand(OperandNodeKind::Register(vreg(1))), vec![], Type::i32, None),
            konst(5),
            node(NodeKind::IR(IRNodeKind::Entry), vec![], Type::Void, Some(3)),
            mi,
            node(NodeKind::IR(IRNodeKind::Ret), vec![3], Type::Void, None),
        ],
        vreg_gen: 20,
    };
    let tys = Types::new();
    let mut c = MIConverter::new();
    let mf = c.convert_function(&tys, f);
    let a = &mf.instr_arena;
    assert_eq!(a.len(), 3);
    check(
        &a[0],
        MachineOpcode::MOVrr32,
        vec![vreg(20)],
        vec![MachineOperand::Register(vreg(1)), MachineOperand::Constant(MachineConstant::Int32(5))],
    );
    assert_eq!(a[0].tie, vec![(vreg(20), vreg(1))]);
    check(&a[1], MachineOpcode::MOVrr32, vec![phys32(0, PhysReg::EAX)], vec![MachineOperand::Register(vreg(20))]);
    check(&a[2], MachineOpcode::RET, vec![], vec![]);
    assert_eq!(mf.vreg_gen, 21);
}

#[test]
fn setcc_result_feeds_a_conditional_branch() {
    let f = DAGFunction {
        dag_basic_blocks: vec![0],
        dag_basic_block_arena: vec![block(vec![0], vec![0], 3)],
        node_arena: vec![
            node(NodeKind::Operand(OperandNodeKind::Register(vreg(1))), vec![], Type::i32, None),
            konst(0),
            node(NodeKind::Operand(OperandNodeKind::CondKind(CondKind::Eq)), vec![], Type::Void, None),
            node(NodeKind::IR(IRNodeKind::Entry), vec![], Type::Void, Some(4)),
            node(NodeKind::IR(IRNodeKind::Setcc), vec![2, 0, 1], Type::i8, Some(6)),
            node(NodeKind::Operand(OperandNodeKind::BasicBlock(0)), vec![], Type::Void, None),
            node(NodeKind::IR(IRNodeKind::BrCond), vec![4, 5], Type::Void, None),
        ],
        vreg_gen: 30,
    };
    let tys = Types::new();
    let mut c = MIConverter::new();
    let mf = c.convert_function(&tys, f);
    let a = &mf.instr_arena;
    let b = MachineRegister { vreg: 30, ty: Type::i8, bits: 8, phys: None };
    assert_eq!(a.len(), 2);
    check(
        &a[0],
        MachineOpcode::Seteq,
        vec![b],
        vec![MachineOperand::Register(vreg(1)), MachineOperand::Constant(MachineConstant::Int32(0))],
    );
    check(&a[1], MachineOpcode::BrCond, vec![], vec![MachineOperand::Register(b), MachineOperand::Branch(0)]);
    assert_eq!(mf.basic_block_arena[0].pred, vec![0]);
    assert_eq!(mf.basic_block_arena[0].succ, vec![0]);
}
