//! Addresses of program accounts.

use vstd::prelude::*;

verus! {

/// The 32 bytes that identify a program account. The cache never looks into
/// them: it only tells one address from another.
#[derive(Clone, Copy, Debug, Eq, Hash)]
pub struct Address {
    pub bytes: [u8; 32],
}

impl Address {
    pub fn new(bytes: [u8; 32]) -> (address: Self)
        ensures
            address.bytes == bytes,
    {
        Address { bytes }
    }

    /// Two addresses are one when their bytes agree.
    pub proof fn lemma_equal_by_bytes(self, other: Address)
        ensures
            (self == other) <==> (forall|i: int| 0 <= i < 32 ==> self.bytes@[i] == other.bytes@[i]),
    {
        if forall|i: int| 0 <= i < 32 ==> self.bytes@[i] == other.bytes@[i] {
            assert(self.bytes =~= other.bytes);
        }
    }
}

impl PartialEq for Address {
    fn eq(&self, other: &Address) -> (equal: bool) {
        let mut i: usize = 0;
        while i < 32
            invariant
                i <= 32,
                forall|j: int| 0 <= j < i ==> self.bytes@[j] == other.bytes@[j],
            decreases 32 - i,
        {
            if self.bytes[i] != other.bytes[i] {
                return false;
            }
            i += 1;
        }
        proof {
            self.lemma_equal_by_bytes(*other);
        }
        true
    }
}

impl vstd::std_specs::cmp::PartialEqSpecImpl for Address {
    open spec fn obeys_eq_spec() -> bool {
        true
    }

    open spec fn eq_spec(&self, other: &Address) -> bool {
        *self == *other
    }
}

} // verus!
