//! The identity handle: an opaque external-actor identifier, carried as its
//! raw bytes. Equality is byte-exact. A well-formed handle holds at most 29
//! bytes, the capacity of the wire representation it is taken from.

use vstd::prelude::*;

verus! {

/// The canonical text form of an identity's raw bytes. The encoding is a
/// function of the bytes alone; its content is not stated here.
pub uninterp spec fn principal_text_of(bytes: Seq<u8>) -> Seq<char>;

/// The longest raw form an identity handle can take, in bytes.
pub const MAX_IDENTITY_BYTES: usize = 29;

/// The tag byte whose one-byte identity denotes the anonymous caller.
pub const ANONYMOUS_TAG: u8 = 4;

/// An external-actor identifier, as its raw bytes.
pub struct Identity {
    pub bytes: Vec<u8>,
}

impl View for Identity {
    type V = Seq<u8>;

    open spec fn view(&self) -> Seq<u8> {
        self.bytes@
    }
}

impl Identity {
    /// A well-formed handle fits the wire representation.
    pub open spec fn is_valid(&self) -> bool {
        self@.len() <= MAX_IDENTITY_BYTES
    }

    /// The anonymous (unauthenticated) caller is the single tag byte.
    pub open spec fn spec_is_anonymous(&self) -> bool {
        self@ == seq![ANONYMOUS_TAG]
    }

    pub fn new(bytes: Vec<u8>) -> (r: Identity)
        ensures
            r@ == bytes@,
    {
        Identity { bytes }
    }

    /// The anonymous identity handle.
    pub fn anonymous() -> (r: Identity)
        ensures
            r.spec_is_anonymous(),
            r.is_valid(),
    {
        let mut bytes: Vec<u8> = Vec::new();
        bytes.push(ANONYMOUS_TAG);
        proof {
            assert(bytes@ =~= seq![ANONYMOUS_TAG]);
        }
        Identity { bytes }
    }

    pub fn is_anonymous(&self) -> (r: bool)
        ensures
            r == self.spec_is_anonymous(),
    {
        let r = self.bytes.len() == 1 && self.bytes[0] == ANONYMOUS_TAG;
        proof {
            if r {
                assert(self@ =~= seq![ANONYMOUS_TAG]);
            }
        }
        r
    }

    /// An owned copy with the same bytes.
    pub fn duplicate(&self) -> (r: Identity)
        ensures
            r@ == self@,
    {
        let mut bytes: Vec<u8> = Vec::new();
        let n = self.bytes.len();
        let mut i: usize = 0;
        while i < n
            invariant
                i <= n,
                n == self.bytes.len(),
                bytes@ == self.bytes@.take(i as int),
            decreases n - i,
        {
            bytes.push(self.bytes[i]);
            proof {
                assert(bytes@ =~= self.bytes@.take(i + 1));
            }
            i = i + 1;
        }
        proof {
            assert(self.bytes@.take(n as int) =~= self.bytes@);
        }
        Identity { bytes }
    }

    /// The handle's canonical text form.
    ///
    /// Relies on candid's Principal::to_text: the textual representation of
    /// a principal of at most 29 bytes, a function of the bytes alone.
    #[verifier::external_body]
    pub fn to_text(&self) -> (r: String)
        requires
            self.is_valid(),
        ensures
            r@ == principal_text_of(self@),
    {
        candid::Principal::from_slice(&self.bytes).to_text()
    }

    /// Byte-exact equality of two handles.
    pub fn same_as(&self, other: &Identity) -> (r: bool)
        ensures
            r == (self@ == other@),
    {
        let r = self.bytes == other.bytes;
        proof {
            if self.bytes@ =~= other.bytes@ {
                assert(self@ == other@);
            }
        }
        r
    }
}

} // verus!
