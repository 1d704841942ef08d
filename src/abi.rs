//! References to guest functions.

use vstd::prelude::*;

verus! {

/// A guest function: an address together with the flag that says whether it
/// must be entered in Thumb mode. The flag travels in the low bit of the
/// address only where an address is stored (the link register, a pointer).
#[derive(Clone, Copy, Debug, PartialEq, Eq, Structural)]
pub struct GuestFunction {
    bits: u32,
}

impl GuestFunction {
    /// The address with the Thumb bit merged in.
    pub closed spec fn spec_bits(self) -> u32 {
        self.bits
    }

    /// The address, Thumb bit cleared.
    pub open spec fn spec_addr(self) -> u32 {
        (self.spec_bits() - self.spec_bits() % 2) as u32
    }

    pub open spec fn spec_is_thumb(self) -> bool {
        self.spec_bits() % 2 == 1
    }

    /// Interpret an address whose low bit is the Thumb flag.
    pub fn from_addr_with_thumb_bit(addr: u32) -> (r: GuestFunction)
        ensures
            r.spec_bits() == addr,
    {
        GuestFunction { bits: addr }
    }

    /// Combine an even address with a Thumb flag.
    pub fn from_addr_and_thumb_flag(addr: u32, thumb: bool) -> (r: GuestFunction)
        requires
            addr % 2 == 0,
        ensures
            r.spec_addr() == addr,
            r.spec_is_thumb() == thumb,
    {
        if thumb {
            GuestFunction { bits: addr + 1 }
        } else {
            GuestFunction { bits: addr }
        }
    }

    pub fn is_thumb(self) -> (r: bool)
        ensures
            r == self.spec_is_thumb(),
    {
        self.bits % 2 == 1
    }

    pub fn addr_with_thumb_bit(self) -> (r: u32)
        ensures
            r == self.spec_bits(),
    {
        self.bits
    }

    pub fn addr_without_thumb_bit(self) -> (r: u32)
        ensures
            r == self.spec_addr(),
            r % 2 == 0,
    {
        self.bits - self.bits % 2
    }
}

} // verus!
