use cilk::machine::{FrameIndexInfo, MachineConstant, MachineInstr, MachineOpcode, MachineOperand, MachineRegister};
use cilk::mc_convert::{mov_mx, mov_n_rx, mov_rx, ConversionInfo, MIConverter};
use cilk::types::{Type, Types};
use cilk::dag::DAGFunction;
use rustc_hash::FxHashMap;

fn reg(bits: usize, ty: Type) -> MachineOperand {
    MachineOperand::Register(MachineRegister { vreg: 0, ty, bits, phys: None })
}

fn slot(bits: usize, ty: Type) -> MachineOperand {
    MachineOperand::FrameIndex(FrameIndexInfo { idx: 0, ty, bits })
}

#[test]
fn mov_n_rx_has_only_32_bit_moves() {
    assert_eq!(mov_n_rx(32, &reg(32, Type::i32)), Some(MachineOpcode::MOVrr32));
    assert_eq!(mov_n_rx(32, &MachineOperand::Constant(MachineConstant::Int32(5))), Some(MachineOpcode::MOVri32));
    assert_eq!(mov_n_rx(64, &reg(64, Type::i64)), None);
    assert_eq!(mov_n_rx(8, &MachineOperand::Constant(MachineConstant::Int32(5))), None);
    assert_eq!(mov_n_rx(32, &slot(32, Type::i32)), None);
    assert_eq!(mov_n_rx(32, &MachineOperand::Address(3)), None);
}

#[test]
fn mov_rx_picks_by_width_and_kind() {
    let tys = Types::new();
    assert_eq!(mov_rx(&tys, &reg(32, Type::i32)), Some(MachineOpcode::MOVrr32));
    assert_eq!(mov_rx(&tys, &reg(64, Type::i64)), Some(MachineOpcode::MOVrr64));
    assert_eq!(mov_rx(&tys, &MachineOperand::Constant(MachineConstant::Int32(1))), Some(MachineOpcode::MOVri32));
    assert_eq!(mov_rx(&tys, &MachineOperand::Constant(MachineConstant::Int64(1))), Some(MachineOpcode::MOVri64));
    assert_eq!(mov_rx(&tys, &slot(32, Type::i32)), Some(MachineOpcode::MOVrm64));
    assert_eq!(mov_rx(&tys, &slot(64, Type::i64)), Some(MachineOpcode::MOVrm64));
    assert_eq!(mov_rx(&tys, &reg(8, Type::i8)), None);
    assert_eq!(mov_rx(&tys, &slot(1, Type::i1)), None);
}

#[test]
fn mov_rx_moves_doubles_with_movsd() {
    let tys = Types::new();
    assert_eq!(mov_rx(&tys, &MachineOperand::Constant(MachineConstant::F64(0))), Some(MachineOpcode::MOVSDrm64));
    assert_eq!(mov_rx(&tys, &reg(64, Type::F64)), Some(MachineOpcode::MOVSDrm64));
    assert_eq!(mov_rx(&tys, &slot(64, Type::F64)), Some(MachineOpcode::MOVSDrm64));
}

#[test]
fn mov_mx_stores_32_bit_registers_and_immediates() {
    assert_eq!(mov_mx(&reg(32, Type::i32)), Some(MachineOpcode::MOVmr32));
    assert_eq!(mov_mx(&MachineOperand::Constant(MachineConstant::Int32(7))), Some(MachineOpcode::MOVmi32));
    assert_eq!(mov_mx(&reg(64, Type::i64)), None);
    assert_eq!(mov_mx(&MachineOperand::Constant(MachineConstant::Int64(7))), None);
    assert_eq!(mov_mx(&MachineOperand::Constant(MachineConstant::F64(7))), None);
    assert_eq!(mov_mx(&slot(32, Type::i32)), None);
    assert_eq!(mov_mx(&MachineOperand::Empty), None);
}

#[test]
fn operand_types_and_constant_widths() {
    assert_eq!(MachineConstant::Int32(1).get_type(), Type::i32);
    assert_eq!(MachineConstant::Int64(1).get_type(), Type::i64);
    assert_eq!(MachineConstant::F64(1).get_type(), Type::F64);
    assert_eq!(MachineConstant::Int32(1).size_in_bits(), 32);
    assert_eq!(MachineConstant::Int64(1).size_in_bits(), 64);
    assert_eq!(MachineConstant::F64(1).size_in_bits(), 64);
    assert_eq!(reg(32, Type::i32).get_type(), Some(Type::i32));
    assert_eq!(slot(64, Type::i64).get_type(), Some(Type::i64));
    assert_eq!(MachineOperand::Constant(MachineConstant::F64(0)).get_type(), Some(Type::F64));
    assert_eq!(MachineOperand::Branch(2).get_type(), None);
    assert_eq!(MachineOperand::Address(2).get_type(), None);
}

#[test]
fn new_converter_maps_nothing() {
    let c = MIConverter::new();
    assert!(c.dag_bb_to_machine_bb.is_empty());
    assert!(c.node_id_to_machine_inst_id.is_empty());
}

#[test]
fn push_inst_appends_to_arena_and_block() {
    let f = DAGFunction { dag_basic_blocks: vec![], dag_basic_block_arena: vec![], node_arena: vec![], vreg_gen: 0 };
    let mut info = ConversionInfo {
        cur_func: &f,
        machine_inst_arena: vec![MachineInstr {
            opcode: MachineOpcode::RET,
            def: vec![],
            operand: vec![],
            imp_def: vec![],
            imp_use: vec![],
            tie: vec![],
            parent: 0,
        }],
        dag_to_reg: FxHashMap::default(),
        cur_bb: 3,
        iseq: vec![0],
        stack_adjust: 16,
        vreg_gen: 5,
    };
    let id = info.push_inst(MachineInstr {
        opcode: MachineOpcode::JMP,
        def: vec![],
        operand: vec![MachineOperand::Branch(1)],
        imp_def: vec![],
        imp_use: vec![],
        tie: vec![],
        parent: 3,
    });
    assert_eq!(id, 1);
    assert_eq!(info.cur_bb, 3);
    assert_eq!(info.machine_inst_arena.len(), 2);
    assert_eq!(info.machine_inst_arena[1].opcode, MachineOpcode::JMP);
    assert_eq!(info.iseq, vec![0, 1]);
    assert_eq!(info.stack_adjust, 16);
    assert_eq!(info.vreg_gen, 5);
}
