//! Memory that stays where it is.
//!
//! The address of a [`Memory`] comes from the memory itself and from nowhere else, and
//! nothing here moves the memory: nothing is added to it or taken from it.
use vstd::prelude::*;

verus! {

/// Bytes in memory, and the address at which they start.
#[derive(Debug)]
pub struct Memory {
    bytes: Vec<u8>,
    address: usize,
}

impl View for Memory {
    type V = Seq<u8>;

    closed spec fn view(&self) -> Seq<u8> {
        self.bytes@
    }
}

impl Memory {
    /// The address at which the memory starts.
    pub closed spec fn spec_address(&self) -> usize {
        self.address
    }

    /// `as_ptr` and `addr` give the address at which `bytes` lie. Which one that is
    /// depends on the machine. The bytes themselves are kept.
    #[verifier::external_body]
    pub(crate) fn of(bytes: Vec<u8>) -> (memory: Memory)
        ensures
            memory@ == bytes@,
    {
        let address = bytes.as_ptr().addr();
        Memory { bytes, address }
    }

    /// The address at which the memory starts.
    pub fn address(&self) -> (address: usize)
        ensures
            address == self.spec_address(),
    {
        self.address
    }

    /// How many bytes there are.
    pub fn len(&self) -> (n: usize)
        ensures
            n == self@.len(),
    {
        self.bytes.len()
    }

    /// The bytes.
    pub fn as_slice(&self) -> (bytes: &[u8])
        ensures
            bytes@ == self@,
    {
        self.bytes.as_slice()
    }

    /// The bytes, to be written to.
    pub fn as_mut_slice(&mut self) -> (bytes: &mut [u8])
        ensures
            bytes@ == old(self)@,
            final(self)@ == final(bytes)@,
            final(self).spec_address() == old(self).spec_address(),
    {
        self.bytes.as_mut_slice()
    }

    /// Sets the byte at position `at`.
    pub fn set(&mut self, at: usize, byte: u8)
        requires
            at < old(self)@.len(),
        ensures
            final(self)@ == old(self)@.update(at as int, byte),
            final(self).spec_address() == old(self).spec_address(),
    {
        self.bytes[at] = byte;
    }
}

} // verus!
