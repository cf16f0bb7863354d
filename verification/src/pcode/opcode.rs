//! p-code opcodes.
//!
//! Opcodes whose number, operands and meaning were confirmed against the
//! UCSD p-System Internal Architecture Guide are [`ConfirmedOp`]; the
//! others, whose mnemonics follow common p-code usage, are
//! [`UnconfirmedOp`]. Jump and call targets are instruction indices, not
//! byte offsets.

use vstd::prelude::*;

verus! {

/// Opcodes confirmed against the p-System documentation.
#[derive(Debug, Clone, Copy, PartialEq, Eq, Structural)]
pub enum ConfirmedOp {
    /// `CPL target`: call a procedure nested directly in the caller; the
    /// new static link is the caller's activation record.
    Cpl(CodeAddress),
    /// `CPG target`: call a procedure declared at lexical level 1; the new
    /// static link is the global scope.
    Cpg(CodeAddress),
    /// `CPI db, target`: call a procedure `db` lexical levels up.
    Cpi(u8, CodeAddress),
    /// `SCPI1 target`: `CPI` with `db = 1`.
    Scpi1(CodeAddress),
    /// `SCPI2 target`: `CPI` with `db = 2`.
    Scpi2(CodeAddress),
    /// `RPU b`: return; restore the caller's state and cut back `b` words
    /// of the activation record, leaving a function's result.
    Rpu(u16),
    /// `CXG seg, proc`: call procedure `proc` of segment `seg`; used here
    /// only for the simplified KERNEL calls behind `WriteLn`.
    Cxg(u8, u8),
}

/// A word address: an offset into the global data area (level 0 at global
/// scope) or into an activation record, where offsets below 5 are the mark
/// stack.
#[derive(Debug, Clone, Copy, PartialEq, Eq, Structural, PartialOrd, Ord, Hash)]
pub struct Address(pub u16);

/// How many static links a `LOD`/`STR`/`LDA` follows.
#[derive(Debug, Clone, Copy, PartialEq, Eq, Structural, PartialOrd, Ord, Hash)]
pub struct Level(pub u8);

/// An index into the instruction stream.
#[derive(Debug, Clone, Copy, Default, PartialEq, Eq, Structural, PartialOrd, Ord, Hash)]
pub struct CodeAddress(pub u32);

/// Opcodes whose encoding is not confirmed against primary sources.
#[derive(Debug, Clone, Copy, PartialEq, Eq, Structural)]
pub enum UnconfirmedOp {
    /// `LDC v`: push a constant.
    Ldc(i16),
    /// `LOD level, addr`: push the word at `addr`.
    Lod(Level, Address),
    /// `STR level, addr`: pop a word into `addr`.
    Str(Level, Address),
    /// `LDA level, addr`: push the absolute address of `addr`.
    Lda(Level, Address),
    /// `IND`: pop an address, push the word it points at.
    Ind,
    /// `STI`: pop a value, pop an address, store the value there.
    Sti,
    Adi,
    Sbi,
    Mpi,
    /// `DVI`: integer division; a zero divisor is a runtime error.
    Dvi,
    /// `MOD`: remainder; a zero divisor is a runtime error.
    Mod,
    /// `NGI`: negate.
    Ngi,
    Equ,
    Neq,
    Leq,
    Geq,
    And,
    Ior,
    Not,
    /// `UJP target`: jump.
    Ujp(CodeAddress),
    /// `FJP target`: pop a boolean, jump if it is false.
    Fjp(CodeAddress),
    /// `STP`: halt.
    Stp,
}

/// A p-code opcode.
#[derive(Debug, Clone, Copy, PartialEq, Eq, Structural)]
pub enum Opcode {
    Confirmed(ConfirmedOp),
    Unconfirmed(UnconfirmedOp),
}

impl Opcode {
    /// The jump or call target of `UJP`/`FJP`/`CPL`/`CPG`/`CPI`/`SCPI1`/
    /// `SCPI2`, if the opcode is one of these.
    pub open spec fn spec_jump_target(self) -> Option<CodeAddress> {
        match self {
            Opcode::Unconfirmed(UnconfirmedOp::Ujp(t)) => Some(t),
            Opcode::Unconfirmed(UnconfirmedOp::Fjp(t)) => Some(t),
            Opcode::Confirmed(ConfirmedOp::Cpl(t)) => Some(t),
            Opcode::Confirmed(ConfirmedOp::Cpg(t)) => Some(t),
            Opcode::Confirmed(ConfirmedOp::Cpi(_, t)) => Some(t),
            Opcode::Confirmed(ConfirmedOp::Scpi1(t)) => Some(t),
            Opcode::Confirmed(ConfirmedOp::Scpi2(t)) => Some(t),
            _ => None,
        }
    }

    /// The same opcode with its jump or call target replaced by `t`
    /// (unchanged if it has none).
    pub open spec fn spec_with_target(self, t: CodeAddress) -> Opcode {
        match self {
            Opcode::Unconfirmed(UnconfirmedOp::Ujp(_)) => Opcode::Unconfirmed(UnconfirmedOp::Ujp(t)),
            Opcode::Unconfirmed(UnconfirmedOp::Fjp(_)) => Opcode::Unconfirmed(UnconfirmedOp::Fjp(t)),
            Opcode::Confirmed(ConfirmedOp::Cpl(_)) => Opcode::Confirmed(ConfirmedOp::Cpl(t)),
            Opcode::Confirmed(ConfirmedOp::Cpg(_)) => Opcode::Confirmed(ConfirmedOp::Cpg(t)),
            Opcode::Confirmed(ConfirmedOp::Cpi(db, _)) => Opcode::Confirmed(ConfirmedOp::Cpi(db, t)),
            Opcode::Confirmed(ConfirmedOp::Scpi1(_)) => Opcode::Confirmed(ConfirmedOp::Scpi1(t)),
            Opcode::Confirmed(ConfirmedOp::Scpi2(_)) => Opcode::Confirmed(ConfirmedOp::Scpi2(t)),
            _ => self,
        }
    }

    /// A mutable reference to the jump or call target of a jump or call
    /// instruction, for backpatching; `None` for every other opcode
    /// (`RPU`, `CXG` and the rest carry no target).
    pub fn jump_target_mut(&mut self) -> (r: Option<&mut CodeAddress>)
        ensures
            r is None <==> old(self).spec_jump_target() is None,
            r is None ==> *final(self) == *old(self),
            r matches Some(t) ==> Some(*t) == old(self).spec_jump_target()
                && *final(self) == old(self).spec_with_target(*final(t)),
    {
        match self {
            Opcode::Unconfirmed(UnconfirmedOp::Ujp(target)) => Some(target),
            Opcode::Unconfirmed(UnconfirmedOp::Fjp(target)) => Some(target),
            Opcode::Confirmed(ConfirmedOp::Cpl(target)) => Some(target),
            Opcode::Confirmed(ConfirmedOp::Cpg(target)) => Some(target),
            Opcode::Confirmed(ConfirmedOp::Cpi(_, target)) => Some(target),
            Opcode::Confirmed(ConfirmedOp::Scpi1(target)) => Some(target),
            Opcode::Confirmed(ConfirmedOp::Scpi2(target)) => Some(target),
            _ => None,
        }
    }

    /// Replaces the jump or call target of a jump or call instruction;
    /// other opcodes are left as they are.
    pub fn set_jump_target(&mut self, target: CodeAddress)
        ensures
            *final(self) == old(self).spec_with_target(target),
    {
        if let Some(t) = self.jump_target_mut() {
            *t = target;
        }
    }
}

} // verus!
