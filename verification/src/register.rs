//! Register classes of the x86-64 target: which class holds a value of a
//! type, and the registers that pass arguments and return values.
use vstd::prelude::*;
use crate::machine::{MachineRegister, PhysReg};
use crate::types::Type;

verus! {

#[derive(Clone, Copy, PartialEq, Eq, Debug, Structural)]
pub enum RegisterClassKind {
    GR8,
    GR32,
    GR64,
    XMM,
}

/// The class of registers that holds a value of `ty`, if a register can.
pub open spec fn spec_ty2rc(ty: Type) -> Option<RegisterClassKind> {
    match ty {
        Type::i1 | Type::i8 => Some(RegisterClassKind::GR8),
        Type::i32 => Some(RegisterClassKind::GR32),
        Type::i64 | Type::Pointer(_) => Some(RegisterClassKind::GR64),
        Type::F64 => Some(RegisterClassKind::XMM),
        _ => None,
    }
}

pub fn ty2rc(ty: Type) -> (r: Option<RegisterClassKind>)
    ensures
        r == spec_ty2rc(ty),
{
    match ty {
        Type::i1 | Type::i8 => Some(RegisterClassKind::GR8),
        Type::i32 => Some(RegisterClassKind::GR32),
        Type::i64 | Type::Pointer(_) => Some(RegisterClassKind::GR64),
        Type::F64 => Some(RegisterClassKind::XMM),
        _ => None,
    }
}

impl RegisterClassKind {
    pub open spec fn spec_size_in_bits(self) -> usize {
        match self {
            RegisterClassKind::GR8 => 8,
            RegisterClassKind::GR32 => 32,
            RegisterClassKind::GR64 => 64,
            RegisterClassKind::XMM => 64,
        }
    }

    /// The type of what a register of the class holds.
    pub open spec fn spec_into_type(self) -> Type {
        match self {
            RegisterClassKind::GR8 => Type::i8,
            RegisterClassKind::GR32 => Type::i32,
            RegisterClassKind::GR64 => Type::i64,
            RegisterClassKind::XMM => Type::F64,
        }
    }

    /// The register that passes argument `i` of the class, if one does.
    pub open spec fn spec_get_nth_arg_reg(self, i: usize) -> Option<PhysReg> {
        match self {
            RegisterClassKind::GR8 => if i == 0 { Some(PhysReg::DIL) } else if i == 1 { Some(PhysReg::SIL) } else if i == 2 {
                Some(PhysReg::DL)
            } else if i == 3 { Some(PhysReg::CL) } else if i == 4 { Some(PhysReg::R8B) } else if i == 5 {
                Some(PhysReg::R9B)
            } else { None },
            RegisterClassKind::GR32 => if i == 0 { Some(PhysReg::EDI) } else if i == 1 { Some(PhysReg::ESI) } else if i == 2 {
                Some(PhysReg::EDX)
            } else if i == 3 { Some(PhysReg::ECX) } else if i == 4 { Some(PhysReg::R8D) } else if i == 5 {
                Some(PhysReg::R9D)
            } else { None },
            RegisterClassKind::GR64 => if i == 0 { Some(PhysReg::RDI) } else if i == 1 { Some(PhysReg::RSI) } else if i == 2 {
                Some(PhysReg::RDX)
            } else if i == 3 { Some(PhysReg::RCX) } else if i == 4 { Some(PhysReg::R8) } else if i == 5 {
                Some(PhysReg::R9)
            } else { None },
            RegisterClassKind::XMM => if i == 0 { Some(PhysReg::XMM0) } else if i == 1 { Some(PhysReg::XMM1) } else if i == 2 {
                Some(PhysReg::XMM2)
            } else if i == 3 { Some(PhysReg::XMM3) } else if i == 4 { Some(PhysReg::XMM4) } else if i == 5 {
                Some(PhysReg::XMM5)
            } else if i == 6 { Some(PhysReg::XMM6) } else if i == 7 { Some(PhysReg::XMM7) } else { None },
        }
    }

    /// The register that returns a value of the class.
    pub open spec fn spec_return_value_register(self) -> PhysReg {
        match self {
            RegisterClassKind::GR8 => PhysReg::AL,
            RegisterClassKind::GR32 => PhysReg::EAX,
            RegisterClassKind::GR64 => PhysReg::RAX,
            RegisterClassKind::XMM => PhysReg::XMM0,
        }
    }

    pub fn size_in_bits(self) -> (r: usize)
        ensures
            r == self.spec_size_in_bits(),
    {
        match self {
            RegisterClassKind::GR8 => 8,
            RegisterClassKind::GR32 => 32,
            RegisterClassKind::GR64 => 64,
            RegisterClassKind::XMM => 64,
        }
    }

    pub fn into_type(self) -> (r: Type)
        ensures
            r == self.spec_into_type(),
    {
        match self {
            RegisterClassKind::GR8 => Type::i8,
            RegisterClassKind::GR32 => Type::i32,
            RegisterClassKind::GR64 => Type::i64,
            RegisterClassKind::XMM => Type::F64,
        }
    }

    pub fn get_nth_arg_reg(self, i: usize) -> (r: Option<PhysReg>)
        ensures
            r == self.spec_get_nth_arg_reg(i),
    {
        let gr8 = [PhysReg::DIL, PhysReg::SIL, PhysReg::DL, PhysReg::CL, PhysReg::R8B, PhysReg::R9B];
        let gr32 = [PhysReg::EDI, PhysReg::ESI, PhysReg::EDX, PhysReg::ECX, PhysReg::R8D, PhysReg::R9D];
        let gr64 = [PhysReg::RDI, PhysReg::RSI, PhysReg::RDX, PhysReg::RCX, PhysReg::R8, PhysReg::R9];
        let xmm = [
            PhysReg::XMM0,
            PhysReg::XMM1,
            PhysReg::XMM2,
            PhysReg::XMM3,
            PhysReg::XMM4,
            PhysReg::XMM5,
            PhysReg::XMM6,
            PhysReg::XMM7,
        ];
        match self {
            RegisterClassKind::GR8 => if i < 6 { Some(gr8[i]) } else { None },
            RegisterClassKind::GR32 => if i < 6 { Some(gr32[i]) } else { None },
            RegisterClassKind::GR64 => if i < 6 { Some(gr64[i]) } else { None },
            RegisterClassKind::XMM => if i < 8 { Some(xmm[i]) } else { None },
        }
    }

    pub fn return_value_register(self) -> (r: PhysReg)
        ensures
            r == self.spec_return_value_register(),
    {
        match self {
            RegisterClassKind::GR8 => PhysReg::AL,
            RegisterClassKind::GR32 => PhysReg::EAX,
            RegisterClassKind::GR64 => PhysReg::RAX,
            RegisterClassKind::XMM => PhysReg::XMM0,
        }
    }
}

/// A register of class `rc`, with virtual register number `vreg` and, if
/// fixed, physical register `phys`.  A physical register named without a
/// virtual register carries number 0.
pub open spec fn class_reg(rc: RegisterClassKind, vreg: usize, phys: Option<PhysReg>) -> MachineRegister {
    MachineRegister { vreg, ty: rc.spec_into_type(), bits: rc.spec_size_in_bits(), phys }
}

pub fn new_class_reg(rc: RegisterClassKind, vreg: usize, phys: Option<PhysReg>) -> (r: MachineRegister)
    ensures
        r == class_reg(rc, vreg, phys),
{
    MachineRegister { vreg, ty: rc.into_type(), bits: rc.size_in_bits(), phys }
}

} // verus!

verus! {

/// The x86-64 calling convention: integer arguments go in `DI`, `SI`,
/// `DX`, `CX`, `R8`, `R9` (in the width of their class), doubles in
/// `XMM0`–`XMM7`, the rest on the stack; values come back in `AL`, `EAX`,
/// `RAX` or `XMM0`; and registers hold the types of their class.
pub proof fn lemma_calling_convention()
    ensures
        RegisterClassKind::GR32.spec_get_nth_arg_reg(0) == Some(PhysReg::EDI),
        RegisterClassKind::GR32.spec_get_nth_arg_reg(1) == Some(PhysReg::ESI),
        RegisterClassKind::GR32.spec_get_nth_arg_reg(2) == Some(PhysReg::EDX),
        RegisterClassKind::GR32.spec_get_nth_arg_reg(3) == Some(PhysReg::ECX),
        RegisterClassKind::GR32.spec_get_nth_arg_reg(4) == Some(PhysReg::R8D),
        RegisterClassKind::GR32.spec_get_nth_arg_reg(5) == Some(PhysReg::R9D),
        RegisterClassKind::GR64.spec_get_nth_arg_reg(0) == Some(PhysReg::RDI),
        RegisterClassKind::GR64.spec_get_nth_arg_reg(1) == Some(PhysReg::RSI),
        RegisterClassKind::GR64.spec_get_nth_arg_reg(2) == Some(PhysReg::RDX),
        RegisterClassKind::GR64.spec_get_nth_arg_reg(3) == Some(PhysReg::RCX),
        RegisterClassKind::GR64.spec_get_nth_arg_reg(4) == Some(PhysReg::R8),
        RegisterClassKind::GR64.spec_get_nth_arg_reg(5) == Some(PhysReg::R9),
        RegisterClassKind::GR8.spec_get_nth_arg_reg(0) == Some(PhysReg::DIL),
        RegisterClassKind::GR8.spec_get_nth_arg_reg(1) == Some(PhysReg::SIL),
        RegisterClassKind::GR8.spec_get_nth_arg_reg(2) == Some(PhysReg::DL),
        RegisterClassKind::GR8.spec_get_nth_arg_reg(3) == Some(PhysReg::CL),
        RegisterClassKind::GR8.spec_get_nth_arg_reg(4) == Some(PhysReg::R8B),
        RegisterClassKind::GR8.spec_get_nth_arg_reg(5) == Some(PhysReg::R9B),
        RegisterClassKind::XMM.spec_get_nth_arg_reg(0) == Some(PhysReg::XMM0),
        RegisterClassKind::XMM.spec_get_nth_arg_reg(7) == Some(PhysReg::XMM7),
        forall|i: usize| i >= 6 ==> (#[trigger] RegisterClassKind::GR32.spec_get_nth_arg_reg(i)) is None,
        forall|i: usize| i >= 6 ==> (#[trigger] RegisterClassKind::GR64.spec_get_nth_arg_reg(i)) is None,
        forall|i: usize| i >= 6 ==> (#[trigger] RegisterClassKind::GR8.spec_get_nth_arg_reg(i)) is None,
        forall|i: usize| i >= 8 ==> (#[trigger] RegisterClassKind::XMM.spec_get_nth_arg_reg(i)) is None,
        RegisterClassKind::GR8.spec_return_value_register() == PhysReg::AL,
        RegisterClassKind::GR32.spec_return_value_register() == PhysReg::EAX,
        RegisterClassKind::GR64.spec_return_value_register() == PhysReg::RAX,
        RegisterClassKind::XMM.spec_return_value_register() == PhysReg::XMM0,
        forall|t: Type| #[trigger] spec_ty2rc(t) matches Some(rc) ==> rc.spec_into_type() == t || t is i1 || t is Pointer,
        forall|rc: RegisterClassKind| #[trigger] spec_ty2rc(rc.spec_into_type()) == Some(rc),
        RegisterClassKind::GR8.spec_size_in_bits() == 8,
        RegisterClassKind::GR32.spec_size_in_bits() == 32,
        RegisterClassKind::GR64.spec_size_in_bits() == 64,
{
}

} // verus!
