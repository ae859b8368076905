use cilk::liveness::{LiveInterval, LiveRange, LiveRegMatrix, LiveSegment, LivenessAnalysis};
use cilk::machine::{
    LivenessInfo, MachineBasicBlock, MachineConstant, MachineFunction, MachineInstr, MachineModule,
    MachineOpcode, MachineOperand, MachineRegister,
};
use cilk::types::Type;
use rustc_hash::{FxHashMap, FxHashSet};

fn reg(vreg: usize) -> MachineRegister {
    MachineRegister { vreg, ty: Type::i32, bits: 32, phys: None }
}

fn instr(opcode: MachineOpcode, def: Vec<MachineRegister>, operand: Vec<MachineOperand>) -> MachineInstr {
    MachineInstr { opcode, def, operand, imp_def: vec![], imp_use: vec![], tie: vec![], parent: 0 }
}

fn empty_liveness() -> LivenessInfo {
    LivenessInfo { def: FxHashSet::default(), live_in: FxHashSet::default(), live_out: FxHashSet::default() }
}

fn block(iseq: Vec<usize>, pred: Vec<usize>, succ: Vec<usize>) -> MachineBasicBlock {
    MachineBasicBlock { iseq, pred, succ, liveness: empty_liveness() }
}

fn sorted(set: &FxHashSet<usize>) -> Vec<usize> {
    let mut v: Vec<usize> = set.iter().copied().collect();
    v.sort();
    v
}

fn segments(m: &LiveRegMatrix, vreg: usize) -> Vec<(usize, usize)> {
    let iv = &m.map[&vreg];
    assert_eq!(iv.vreg, vreg);
    iv.range.segments.iter().map(|s| (s.start, s.end)).collect()
}

/// b0: r1 = 1; jmp b1
/// b1: r2 = r1; ret r2
fn straight_line() -> MachineFunction {
    MachineFunction {
        basic_blocks: vec![0, 1],
        basic_block_arena: vec![block(vec![0, 1], vec![], vec![1]), block(vec![2, 3], vec![0], vec![])],
        instr_arena: vec![
            instr(MachineOpcode::MOVri32, vec![reg(1)], vec![MachineOperand::Constant(MachineConstant::Int32(1))]),
            instr(MachineOpcode::JMP, vec![], vec![MachineOperand::Branch(1)]),
            instr(MachineOpcode::MOVrr32, vec![reg(2)], vec![MachineOperand::Register(reg(1))]),
            instr(MachineOpcode::RET, vec![], vec![MachineOperand::Register(reg(2))]),
        ],
        vreg_gen: 10,
        adjust_byte: 0,
    }
}

/// b0: r1 = 1; jmp b1
/// b1: r2 = r1; jmp b1
fn self_loop() -> MachineFunction {
    MachineFunction {
        basic_blocks: vec![0, 1],
        basic_block_arena: vec![block(vec![0, 1], vec![], vec![1]), block(vec![2, 3], vec![0, 1], vec![1])],
        instr_arena: vec![
            instr(MachineOpcode::MOVri32, vec![reg(1)], vec![MachineOperand::Constant(MachineConstant::Int32(1))]),
            instr(MachineOpcode::JMP, vec![], vec![MachineOperand::Branch(1)]),
            instr(MachineOpcode::MOVrr32, vec![reg(2)], vec![MachineOperand::Register(reg(1))]),
            instr(MachineOpcode::JMP, vec![], vec![MachineOperand::Branch(1)]),
        ],
        vreg_gen: 10,
        adjust_byte: 0,
    }
}

/// b0: r1 = 1; jmp b2
/// b1: r3 = 3; jmp b2
/// b2: r4 = phi [r1, b0], [r3, b1]; ret r4
fn diamond_with_phi() -> MachineFunction {
    MachineFunction {
        basic_blocks: vec![0, 1, 2],
        basic_block_arena: vec![
            block(vec![0, 1], vec![], vec![2]),
            block(vec![2, 3], vec![], vec![2]),
            block(vec![4, 5], vec![0, 1], vec![]),
        ],
        instr_arena: vec![
            instr(MachineOpcode::MOVri32, vec![reg(1)], vec![MachineOperand::Constant(MachineConstant::Int32(1))]),
            instr(MachineOpcode::JMP, vec![], vec![MachineOperand::Branch(2)]),
            instr(MachineOpcode::MOVri32, vec![reg(3)], vec![MachineOperand::Constant(MachineConstant::Int32(3))]),
            instr(MachineOpcode::JMP, vec![], vec![MachineOperand::Branch(2)]),
            instr(
                MachineOpcode::Phi,
                vec![reg(4)],
                vec![
                    MachineOperand::Register(reg(1)),
                    MachineOperand::Branch(0),
                    MachineOperand::Register(reg(3)),
                    MachineOperand::Branch(1),
                ],
            ),
            instr(MachineOpcode::RET, vec![], vec![MachineOperand::Register(reg(4))]),
        ],
        vreg_gen: 10,
        adjust_byte: 0,
    }
}

#[test]
fn segment_interference_is_overlap_of_half_open_ranges() {
    let a = LiveSegment::new(0, 5);
    let b = LiveSegment::new(4, 8);
    let c = LiveSegment::new(5, 9);
    assert!(a.interference(&b));
    assert!(b.interference(&a));
    assert!(!a.interference(&c));
    assert!(!c.interference(&a));
    assert!(b.interference(&c));
    assert_eq!(a.start, 0);
    assert_eq!(a.end, 5);
}

#[test]
fn live_range_collects_segments_in_order() {
    let mut r = LiveRange::new_empty();
    assert!(r.segments.is_empty());
    r.add_segment(LiveSegment::new(0, 2));
    r.add_segment(LiveSegment::new(4, 6));
    assert_eq!(r.segments, vec![LiveSegment::new(0, 2), LiveSegment::new(4, 6)]);
    let r2 = LiveRange::new(vec![LiveSegment::new(1, 3)]);
    assert_eq!(r2.segments, vec![LiveSegment::new(1, 3)]);
    let iv = LiveInterval::new(7, r2);
    assert_eq!(iv.vreg, 7);
    assert_eq!(iv.range.segments, vec![LiveSegment::new(1, 3)]);
    let mut map = FxHashMap::default();
    map.insert(7, iv);
    let m = LiveRegMatrix::new(map);
    assert_eq!(m.map.len(), 1);
    assert_eq!(m.map[&7].vreg, 7);
}

#[test]
fn liveness_of_straight_line_code() {
    let mut module = MachineModule { functions: vec![] };
    let mut f = straight_line();
    let m = {
        let mut la = LivenessAnalysis::new(&mut module);
        la.analyze_function(&mut f)
    };
    let b0 = &f.basic_block_arena[0].liveness;
    let b1 = &f.basic_block_arena[1].liveness;
    assert_eq!(sorted(&b0.def), vec![1]);
    assert_eq!(sorted(&b0.live_in), Vec::<usize>::new());
    assert_eq!(sorted(&b0.live_out), vec![1]);
    assert_eq!(sorted(&b1.def), vec![2]);
    assert_eq!(sorted(&b1.live_in), vec![1]);
    assert_eq!(sorted(&b1.live_out), Vec::<usize>::new());
    assert_eq!(m.map.len(), 2);
    assert_eq!(segments(&m, 1), vec![(0, 2), (2, 2)]);
    assert_eq!(segments(&m, 2), vec![(2, 3)]);
}

#[test]
fn liveness_around_a_loop() {
    let mut module = MachineModule { functions: vec![] };
    let mut f = self_loop();
    let m = {
        let mut la = LivenessAnalysis::new(&mut module);
        la.analyze_function(&mut f)
    };
    let b0 = &f.basic_block_arena[0].liveness;
    let b1 = &f.basic_block_arena[1].liveness;
    assert_eq!(sorted(&b0.live_out), vec![1]);
    assert_eq!(sorted(&b1.live_in), vec![1]);
    assert_eq!(sorted(&b1.live_out), vec![1]);
    assert_eq!(sorted(&b1.def), vec![2]);
    assert_eq!(segments(&m, 1), vec![(0, 2), (2, 4)]);
    // r2 is defined and never used: its segment ends at 0
    assert_eq!(segments(&m, 2), vec![(2, 0)]);
}

#[test]
fn phi_operands_are_live_out_of_their_source_block_only() {
    let mut module = MachineModule { functions: vec![] };
    let mut f = diamond_with_phi();
    let m = {
        let mut la = LivenessAnalysis::new(&mut module);
        la.analyze_function(&mut f)
    };
    let b0 = &f.basic_block_arena[0].liveness;
    let b1 = &f.basic_block_arena[1].liveness;
    let b2 = &f.basic_block_arena[2].liveness;
    assert_eq!(sorted(&b0.live_out), vec![1]);
    assert_eq!(sorted(&b1.live_out), vec![3]);
    assert_eq!(sorted(&b2.live_in), vec![1, 3]);
    assert_eq!(sorted(&b2.live_out), Vec::<usize>::new());
    assert_eq!(sorted(&b2.def), vec![4]);
    assert_eq!(m.map.len(), 3);
    assert_eq!(segments(&m, 1), vec![(0, 2), (4, 4)]);
    assert_eq!(segments(&m, 3), vec![(2, 4), (4, 4)]);
    assert_eq!(segments(&m, 4), vec![(4, 5)]);
}

#[test]
fn every_used_register_is_defined_or_live_in_after_analysis() {
    let mut module = MachineModule { functions: vec![] };
    let mut f = diamond_with_phi();
    {
        let mut la = LivenessAnalysis::new(&mut module);
        la.analyze_function(&mut f);
    }
    for &b in &f.basic_blocks {
        let bb = &f.basic_block_arena[b];
        for &i in &bb.iseq {
            for op in &f.instr_arena[i].operand {
                if let MachineOperand::Register(r) = op {
                    assert!(bb.liveness.def.contains(&r.vreg) || bb.liveness.live_in.contains(&r.vreg));
                }
            }
        }
        for r in &bb.liveness.live_out {
            assert!(bb.liveness.def.contains(r) || bb.liveness.live_in.contains(r));
        }
        for r in &bb.liveness.live_in {
            assert!(!bb.liveness.def.contains(r));
        }
    }
}

#[test]
fn analyze_module_fills_liveness_of_every_function() {
    let mut module = MachineModule { functions: vec![straight_line(), diamond_with_phi()] };
    {
        let mut la = LivenessAnalysis::new(&mut module);
        la.analyze_module();
    }
    assert_eq!(module.functions.len(), 2);
    assert_eq!(sorted(&module.functions[0].basic_block_arena[1].liveness.live_in), vec![1]);
    assert_eq!(sorted(&module.functions[0].basic_block_arena[0].liveness.live_out), vec![1]);
    assert_eq!(sorted(&module.functions[1].basic_block_arena[2].liveness.live_in), vec![1, 3]);
    assert_eq!(sorted(&module.functions[1].basic_block_arena[1].liveness.live_out), vec![3]);
    // the code itself is left as it was
    assert_eq!(module.functions[1].instr_arena.len(), 6);
    assert_eq!(module.functions[1].basic_block_arena[2].iseq, vec![4, 5]);
}

#[test]
fn construct_live_reg_matrix_reads_the_liveness_sets() {
    let mut module = MachineModule { functions: vec![] };
    let mut f = straight_line();
    {
        let mut la = LivenessAnalysis::new(&mut module);
        la.analyze_function(&mut f);
    }
    let la = LivenessAnalysis::new(&mut module);
    let m = la.construct_live_reg_matrix(&f);
    assert_eq!(segments(&m, 1), vec![(0, 2), (2, 2)]);
    assert_eq!(segments(&m, 2), vec![(2, 3)]);
}

#[test]
fn segments_of_one_interval_do_not_overlap() {
    let mut module = MachineModule { functions: vec![] };
    let mut f = diamond_with_phi();
    let m = {
        let mut la = LivenessAnalysis::new(&mut module);
        la.analyze_function(&mut f)
    };
    for iv in m.map.values() {
        let segs = &iv.range.segments;
        assert!(segs.len() <= f.basic_blocks.len());
        for i in 0..segs.len() {
            for j in i + 1..segs.len() {
                assert!(segs[i].end <= segs[j].start);
                assert!(!segs[i].interference(&segs[j]));
            }
        }
    }
}
