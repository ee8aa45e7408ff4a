//! Account addresses: the 32-byte hashed address that the funds ledger keys
//! balances by. An address is derived deterministically from an identity's
//! raw bytes and a 32-byte sub-identifier (all-zero when absent) by hashing
//! their concatenation; it travels as lowercase hex text.

use vstd::prelude::*;
use crate::identity::Identity;
use crate::subaccount::SubAccount;
use crate::subaccount::sub_of_identity;
use crate::subaccount::zero_sub;

verus! {

/// What the cryptographic hash returns on the given input bytes. The digest
/// is a function of the input alone; its content is not stated here.
pub uninterp spec fn sha256_of(data: Seq<u8>) -> Seq<u8>;

/// The account address derived from an identity and a sub-identifier.
pub open spec fn account_id_of(id: Seq<u8>, sub: Seq<u8>) -> Seq<u8> {
    sha256_of(id + sub)
}

/// The lowercase hex digit for a value below 16.
pub open spec fn hex_digit(n: int) -> char {
    if n == 0 { '0' }
    else if n == 1 { '1' }
    else if n == 2 { '2' }
    else if n == 3 { '3' }
    else if n == 4 { '4' }
    else if n == 5 { '5' }
    else if n == 6 { '6' }
    else if n == 7 { '7' }
    else if n == 8 { '8' }
    else if n == 9 { '9' }
    else if n == 10 { 'a' }
    else if n == 11 { 'b' }
    else if n == 12 { 'c' }
    else if n == 13 { 'd' }
    else if n == 14 { 'e' }
    else { 'f' }
}

/// Each byte as two lowercase hex digits, most significant nibble first.
pub open spec fn hex_of_bytes(s: Seq<u8>) -> Seq<char>
    decreases s.len(),
{
    if s.len() == 0 {
        seq![]
    } else {
        seq![hex_digit(s.first() as int / 16), hex_digit(s.first() as int % 16)] + hex_of_bytes(s.drop_first())
    }
}

/// The value of a hex digit in either case, or 16 for any other character.
pub open spec fn hex_char_val(c: char) -> int {
    if c == '0' { 0 }
    else if c == '1' { 1 }
    else if c == '2' { 2 }
    else if c == '3' { 3 }
    else if c == '4' { 4 }
    else if c == '5' { 5 }
    else if c == '6' { 6 }
    else if c == '7' { 7 }
    else if c == '8' { 8 }
    else if c == '9' { 9 }
    else if c == 'a' || c == 'A' { 10 }
    else if c == 'b' || c == 'B' { 11 }
    else if c == 'c' || c == 'C' { 12 }
    else if c == 'd' || c == 'D' { 13 }
    else if c == 'e' || c == 'E' { 14 }
    else if c == 'f' || c == 'F' { 15 }
    else { 16 }
}

pub open spec fn is_hex_char(c: char) -> bool {
    hex_char_val(c) < 16
}

/// A decodable hex text: an even number of hex digits, either case.
pub open spec fn is_hex_str(s: Seq<char>) -> bool {
    &&& s.len() % 2 == 0
    &&& forall|i: int| 0 <= i < s.len() ==> is_hex_char(#[trigger] s[i])
}

/// The bytes a hex text decodes to, two digits per byte.
pub open spec fn bytes_of_hex(s: Seq<char>) -> Seq<u8>
    decreases s.len(),
{
    if s.len() < 2 {
        seq![]
    } else {
        seq![(hex_char_val(s[0]) * 16 + hex_char_val(s[1])) as u8] + bytes_of_hex(s.skip(2))
    }
}

/// Relies on sha2::Sha256::digest: the 256-bit digest of the input bytes,
/// a function of the input alone, 32 bytes long.
#[verifier::external_body]
fn sha256_digest(data: &[u8]) -> (r: Vec<u8>)
    ensures
        r@ == sha256_of(data@),
        r@.len() == 32,
{
    <sha2::Sha256 as sha2::Digest>::digest(data).to_vec()
}

/// Relies on hex::encode: each input byte becomes exactly two lowercase hex
/// digits, most significant nibble first.
#[verifier::external_body]
fn hex_encode_bytes(data: &[u8]) -> (r: String)
    ensures
        r@ == hex_of_bytes(data@),
{
    hex::encode(data)
}

/// Relies on hex::decode: an even number of hex digits (either case)
/// decodes pairwise to bytes; any other input is an error.
#[verifier::external_body]
fn hex_decode_str(data: &str) -> (r: Option<Vec<u8>>)
    ensures
        r is Some <==> is_hex_str(data@),
        r matches Some(v) ==> v@ == bytes_of_hex(data@),
{
    hex::decode(data).ok()
}

/// A 32-byte hashed account address on the funds ledger.
pub struct AccountIdentifier {
    pub bytes: [u8; 32],
}

impl View for AccountIdentifier {
    type V = Seq<u8>;

    open spec fn view(&self) -> Seq<u8> {
        self.bytes@
    }
}

impl AccountIdentifier {
    /// Parse an address from its hex text form; exactly 64 hex digits.
    pub fn from_hex(hex: &str) -> (r: Result<AccountIdentifier, String>)
        ensures
            r is Ok <==> (is_hex_str(hex@) && bytes_of_hex(hex@).len() == 32),
            r matches Ok(a) ==> a@ == bytes_of_hex(hex@),
    {
        let decoded = match hex_decode_str(hex) {
            Some(v) => v,
            None => {
                return Err("Invalid hex input for AccountIdentifier".to_string());
            },
        };
        if decoded.len() != 32 {
            return Err("Invalid byte length for AccountIdentifier".to_string());
        }
        let mut bytes: [u8; 32] = [0u8; 32];
        let mut i: usize = 0;
        while i < 32
            invariant
                i <= 32,
                decoded@.len() == 32,
                forall|j: int| 0 <= j < i ==> bytes@[j] == decoded@[j],
            decreases 32 - i,
        {
            bytes[i] = decoded[i];
            i = i + 1;
        }
        proof {
            assert(bytes@ =~= decoded@);
        }
        Ok(AccountIdentifier { bytes })
    }

    /// Derive the address of an identity's sub-account: hash the identity's
    /// raw bytes followed by the sub-identifier (all-zero when absent).
    pub fn from_principal(principal: &Identity, sub_account: Option<SubAccount>) -> (r: AccountIdentifier)
        ensures
            r@ == account_id_of(
                principal@,
                match sub_account {
                    Some(s) => s@,
                    None => zero_sub(),
                },
            ),
    {
        let mut hash_input: Vec<u8> = Vec::new();
        let n = principal.bytes.len();
        let mut i: usize = 0;
        while i < n
            invariant
                i <= n,
                n == principal.bytes.len(),
                hash_input@ == principal.bytes@.take(i as int),
            decreases n - i,
        {
            hash_input.push(principal.bytes[i]);
            proof {
                assert(hash_input@ =~= principal.bytes@.take(i + 1));
            }
            i = i + 1;
        }
        proof {
            assert(principal.bytes@.take(n as int) =~= principal.bytes@);
        }
        let sub_bytes: [u8; 32] = match &sub_account {
            Some(s) => s.bytes,
            None => [0u8; 32],
        };
        let ghost sub_view: Seq<u8> = sub_bytes@;
        proof {
            if sub_account is None {
                assert(sub_view =~= zero_sub());
            }
        }
        let mut i: usize = 0;
        while i < 32
            invariant
                i <= 32,
                sub_view == sub_bytes@,
                hash_input@ == principal@ + sub_view.take(i as int),
            decreases 32 - i,
        {
            hash_input.push(sub_bytes[i]);
            proof {
                assert(hash_input@ =~= principal@ + sub_view.take(i + 1));
            }
            i = i + 1;
        }
        proof {
            assert(sub_view.take(32) =~= sub_view);
            assert(hash_input@ =~= principal@ + sub_view);
        }
        let digest = sha256_digest(hash_input.as_slice());
        let mut bytes: [u8; 32] = [0u8; 32];
        let mut i: usize = 0;
        while i < 32
            invariant
                i <= 32,
                digest@.len() == 32,
                forall|j: int| 0 <= j < i ==> bytes@[j] == digest@[j],
            decreases 32 - i,
        {
            bytes[i] = digest[i];
            i = i + 1;
        }
        proof {
            assert(bytes@ =~= digest@);
        }
        AccountIdentifier { bytes }
    }

    /// The address as lowercase hex text.
    pub fn to_hex(&self) -> (r: String)
        ensures
            r@ == hex_of_bytes(self@),
    {
        hex_encode_bytes(self.bytes.as_slice())
    }

    pub fn to_uint8_array(&self) -> (r: [u8; 32])
        ensures
            r@ == self@,
    {
        self.bytes
    }

    /// The address bytes as an owned vector.
    pub fn to_numbers(&self) -> (r: Vec<u8>)
        ensures
            r@ == self@,
    {
        let mut out: Vec<u8> = Vec::new();
        let mut i: usize = 0;
        while i < 32
            invariant
                i <= 32,
                out@ == self.bytes@.take(i as int),
            decreases 32 - i,
        {
            out.push(self.bytes[i]);
            proof {
                assert(out@ =~= self.bytes@.take(i + 1));
            }
            i = i + 1;
        }
        proof {
            assert(self.bytes@.take(32) =~= self.bytes@);
        }
        out
    }

    pub fn to_account_identifier_hash(&self) -> (r: [u8; 32])
        ensures
            r@ == self@,
    {
        self.bytes
    }

    /// Byte-exact equality of two addresses.
    pub fn same_as(&self, other: &AccountIdentifier) -> (r: bool)
        ensures
            r == (self@ == other@),
    {
        let mut i: usize = 0;
        while i < 32
            invariant
                i <= 32,
                forall|j: int| 0 <= j < i ==> self.bytes@[j] == other.bytes@[j],
            decreases 32 - i,
        {
            if self.bytes[i] != other.bytes[i] {
                return false;
            }
            i = i + 1;
        }
        proof {
            assert(self@ =~= other@);
        }
        true
    }
}

/// Address derivation is deterministic: identical identity and
/// sub-identifier bytes always yield the identical account address.
pub proof fn lemma_account_address_deterministic(
    id1: Seq<u8>,
    sub1: Seq<u8>,
    id2: Seq<u8>,
    sub2: Seq<u8>,
)
    requires
        id1 == id2,
        sub1 == sub2,
    ensures
        account_id_of(id1, sub1) == account_id_of(id2, sub2),
{
}

} // verus!
