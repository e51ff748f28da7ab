use vstd::prelude::*;

verus! {

/// An account or contract address.
///
/// The registries only ever compare addresses for equality and key their
/// indexes by them, so an address is identified by a 64-bit handle; the
/// host that runs the registries assigns one handle per distinct address.
#[derive(Clone, Copy, Debug, PartialEq, Eq, Structural, Hash)]
pub struct Address {
    pub raw: u64,
}

impl Address {
    /// The address with the given handle.
    pub fn from_raw(raw: u64) -> (a: Address)
        ensures
            a.raw == raw,
    {
        Address { raw }
    }
}

} // verus!
