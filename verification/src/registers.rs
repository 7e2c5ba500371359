//! The register file: sixteen signed 64-bit registers and four flags.

use vstd::prelude::*;

use crate::errors::VmError;

verus! {

/// Identifier of a general-purpose register; only values below 16 are valid.
pub type Register = u8;

/// Condition flags.
#[derive(Clone, Copy, Debug, PartialEq, Eq, Structural)]
pub struct Flags {
    pub zero: bool,
    pub carry: bool,
    pub overflow: bool,
    pub negative: bool,
}

/// The register file: sixteen general registers plus the flags.
#[derive(Clone, Copy, Debug)]
pub struct RegisterFile {
    /// The sixteen general-purpose registers.
    pub general: [i64; 16],
    /// The flags register.
    pub flags: Flags,
}

/// The flags that `update_flags` computes for a value: `zero` and
/// `negative` follow the value, carry and overflow are kept.
pub open spec fn flags_for(value: i64, prev: Flags) -> Flags {
    Flags { zero: value == 0, carry: prev.carry, overflow: prev.overflow, negative: value < 0 }
}

impl RegisterFile {
    /// All sixteen registers zero and every flag clear.
    pub fn new() -> (r: RegisterFile)
        ensures
            r.general@ == Seq::new(16, |i: int| 0i64),
            r.flags == (Flags { zero: false, carry: false, overflow: false, negative: false }),
    {
        let r = RegisterFile {
            general: [0; 16],
            flags: Flags { zero: false, carry: false, overflow: false, negative: false },
        };
        proof {
            assert(r.general@ =~= Seq::new(16, |i: int| 0i64));
        }
        r
    }

    /// Read a register; identifiers at or above 16 are invalid.
    pub fn read(&self, reg: Register) -> (r: Result<i64, VmError>)
        ensures
            r == (if reg < 16 {
                Ok::<i64, VmError>(self.general@[reg as int])
            } else {
                Err::<i64, VmError>(VmError::InvalidRegister)
            }),
    {
        if reg < 16 {
            Ok(self.general[reg as usize])
        } else {
            Err(VmError::InvalidRegister)
        }
    }

    /// Write a register; identifiers at or above 16 are invalid and leave
    /// the file unchanged.
    pub fn write(&mut self, reg: Register, value: i64) -> (r: Result<(), VmError>)
        ensures
            reg < 16 ==> r == Ok::<(), VmError>(())
                && final(self).general@ == old(self).general@.update(reg as int, value)
                && final(self).flags == old(self).flags,
            reg >= 16 ==> r == Err::<(), VmError>(VmError::InvalidRegister)
                && *final(self) == *old(self),
    {
        if reg < 16 {
            self.general[reg as usize] = value;
            Ok(())
        } else {
            Err(VmError::InvalidRegister)
        }
    }

    /// Set `zero` and `negative` from a value; carry and overflow are left
    /// to the specific operations that compute them.
    pub fn update_flags(&mut self, value: i64)
        ensures
            final(self).general == old(self).general,
            final(self).flags == flags_for(value, old(self).flags),
    {
        self.flags.zero = value == 0;
        self.flags.negative = value < 0;
    }

    /// Return every register to zero and clear the flags.
    pub fn reset(&mut self)
        ensures
            final(self).general@ == Seq::new(16, |i: int| 0i64),
            final(self).flags == (Flags { zero: false, carry: false, overflow: false, negative: false }),
    {
        self.general = [0; 16];
        self.flags = Flags { zero: false, carry: false, overflow: false, negative: false };
        proof {
            assert(self.general@ =~= Seq::new(16, |i: int| 0i64));
        }
    }
}

impl Flags {
    /// The four flags packed into one value: zero is bit 0, carry bit 1,
    /// overflow bit 2, negative bit 3.  The bits are disjoint, so the
    /// packed value is the sum of the set bits.
    pub fn condition_code(&self) -> (r: u8)
        ensures
            r == (if self.zero { 1int } else { 0int })
                + (if self.carry { 2int } else { 0int })
                + (if self.overflow { 4int } else { 0int })
                + (if self.negative { 8int } else { 0int }),
    {
        let mut code: u8 = 0;
        if self.zero {
            code = code + 1;
        }
        if self.carry {
            code = code + 2;
        }
        if self.overflow {
            code = code + 4;
        }
        if self.negative {
            code = code + 8;
        }
        code
    }
}

} // verus!
