//! Sub-identifiers: the 32-byte suffix that distinguishes sub-accounts held
//! under a single identity. An investor's escrow sub-account is the
//! investor's raw identity bytes right-aligned into 32 bytes, zero-padded on
//! the left.

use vstd::prelude::*;
use crate::identity::Identity;
use crate::identity::MAX_IDENTITY_BYTES;

verus! {

/// The width of a sub-identifier, in bytes.
pub const SUB_ACCOUNT_BYTES: usize = 32;

/// A 32-byte sub-account identifier under an identity.
pub struct SubAccount {
    pub bytes: [u8; 32],
}

/// The identity's raw bytes right-aligned into 32 bytes, the leading bytes
/// zero.
pub open spec fn sub_of_identity(id: Seq<u8>) -> Seq<u8> {
    Seq::new(32, |i: int| if i < 32 - id.len() { 0u8 } else { id[i - (32 - id.len())] })
}

/// All 32 bytes zero: the canonical default sub-identifier.
pub open spec fn zero_sub() -> Seq<u8> {
    Seq::new(32, |i: int| 0u8)
}

impl View for SubAccount {
    type V = Seq<u8>;

    open spec fn view(&self) -> Seq<u8> {
        self.bytes@
    }
}

impl SubAccount {
    /// Right-align the identity's bytes into a zero-padded 32-byte buffer.
    pub fn derive_subaccount(principal: &Identity) -> (r: SubAccount)
        requires
            principal.is_valid(),
        ensures
            r@ == sub_of_identity(principal@),
    {
        let mut bytes: [u8; 32] = [0u8; 32];
        let n = principal.bytes.len();
        let start_index = 32 - n;
        let mut i: usize = 0;
        while i < n
            invariant
                i <= n,
                n == principal.bytes.len(),
                n <= MAX_IDENTITY_BYTES,
                start_index == 32 - n,
                forall|j: int| 0 <= j < start_index ==> bytes@[j] == 0u8,
                forall|j: int| start_index <= j < start_index + i ==> bytes@[j] == principal.bytes@[j - start_index],
                forall|j: int| start_index + i <= j < 32 ==> bytes@[j] == 0u8,
            decreases n - i,
        {
            bytes[start_index + i] = principal.bytes[i];
            i = i + 1;
        }
        proof {
            assert(bytes@ =~= sub_of_identity(principal@));
        }
        SubAccount { bytes }
    }

    /// Same derivation under the name the account model uses.
    pub fn from_principal(principal: &Identity) -> (r: SubAccount)
        requires
            principal.is_valid(),
        ensures
            r@ == sub_of_identity(principal@),
    {
        SubAccount::derive_subaccount(principal)
    }

    /// A sub-account from exactly 32 raw bytes; any other length is rejected.
    pub fn from_bytes(bytes: &[u8]) -> (r: Result<SubAccount, String>)
        ensures
            r is Ok <==> bytes@.len() == 32,
            r matches Ok(s) ==> s@ == bytes@,
    {
        if bytes.len() != 32 {
            return Err("Invalid byte length for SubAccount".to_string());
        }
        let mut out: [u8; 32] = [0u8; 32];
        let mut i: usize = 0;
        while i < 32
            invariant
                i <= 32,
                bytes@.len() == 32,
                forall|j: int| 0 <= j < i ==> out@[j] == bytes@[j],
            decreases 32 - i,
        {
            out[i] = bytes[i];
            i = i + 1;
        }
        proof {
            assert(out@ =~= bytes@);
        }
        Ok(SubAccount { bytes: out })
    }

    /// A sub-account that is zero except for a one-byte id in the last place.
    pub fn from_id(id: u8) -> (r: SubAccount)
        ensures
            r@ == zero_sub().update(31, id),
    {
        let mut bytes: [u8; 32] = [0u8; 32];
        bytes[31] = id;
        proof {
            assert(bytes@ =~= zero_sub().update(31, id));
        }
        SubAccount { bytes }
    }

    pub fn to_uint8_array(&self) -> (r: [u8; 32])
        ensures
            r@ == self@,
    {
        self.bytes
    }

    /// The sub-identifier's bytes as an owned vector.
    pub fn to_vec(&self) -> (r: Vec<u8>)
        ensures
            r@ == self@,
    {
        let mut out: Vec<u8> = Vec::new();
        let mut i: usize = 0;
        while i < 32
            invariant
                i <= 32,
                out@ == self.bytes@.take(i as int),
            decreases 32 - i,
        {
            out.push(self.bytes[i]);
            proof {
                assert(out@ =~= self.bytes@.take(i + 1));
            }
            i = i + 1;
        }
        proof {
            assert(self.bytes@.take(32) =~= self.bytes@);
        }
        out
    }
}

} // verus!
