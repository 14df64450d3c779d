//! Principals, held as plain bytes: a length and a fixed array, as the IC lays them out.
use vstd::prelude::*;

verus! {

/// The longest principal, in bytes.
pub const MAX_PRINCIPAL_BYTES: usize = 29;

/// A caller or user identity: the first `len` bytes of `bytes`, the rest zero.
#[derive(Clone, Copy, Debug, PartialEq, Eq, PartialOrd, Ord, Hash)]
pub struct PrincipalId {
    len: u8,
    bytes: [u8; 29],
}

impl View for PrincipalId {
    type V = Seq<u8>;

    closed spec fn view(&self) -> Seq<u8> {
        self.bytes@.subrange(0, if self.len <= 29 { self.len as int } else { 29 })
    }
}

impl PrincipalId {
    /// A principal has at most 29 bytes.
    pub proof fn lemma_len(&self)
        ensures
            self@.len() <= 29,
    {
    }

    /// The principal with these bytes; `None` when there are more than 29 of them.
    pub fn from_slice(b: &[u8]) -> (r: Option<PrincipalId>)
        ensures
            r is Some <==> b@.len() <= 29,
            r matches Some(p) ==> p@ == b@,
    {
        if b.len() > 29 {
            return None;
        }
        let mut bytes: [u8; 29] = [0u8; 29];
        let mut i: usize = 0;
        while i < b.len()
            invariant
                b@.len() <= 29,
                i <= b@.len(),
                bytes@.len() == 29,
                forall|j: int| 0 <= j < i ==> bytes@[j] == b@[j],
            decreases b@.len() - i,
        {
            bytes[i] = b[i];
            i = i + 1;
        }
        let p = PrincipalId { len: b.len() as u8, bytes };
        assert(p@ =~= b@);
        Some(p)
    }

    /// The empty principal.
    pub fn empty() -> (r: PrincipalId)
        ensures
            r@ == Seq::<u8>::empty(),
    {
        let p = PrincipalId { len: 0, bytes: [0u8; 29] };
        assert(p@ =~= Seq::<u8>::empty());
        p
    }

    /// The bytes of this principal.
    pub fn to_vec(&self) -> (r: Vec<u8>)
        ensures
            r@ == self@,
    {
        let n: usize = if self.len <= 29 { self.len as usize } else { 29 };
        let mut out: Vec<u8> = Vec::new();
        let mut i: usize = 0;
        while i < n
            invariant
                n <= 29,
                self.bytes@.len() == 29,
                i <= n,
                out@ == self.bytes@.subrange(0, i as int),
            decreases n - i,
        {
            out.push(self.bytes[i]);
            i = i + 1;
        }
        out
    }

    /// Whether two principals are the same.
    pub fn same(&self, other: &PrincipalId) -> (r: bool)
        ensures
            r == (*self == *other),
    {
        if self.len != other.len {
            return false;
        }
        let mut i: usize = 0;
        while i < 29
            invariant
                self.bytes@.len() == 29,
                other.bytes@.len() == 29,
                i <= 29,
                forall|j: int| 0 <= j < i ==> self.bytes@[j] == other.bytes@[j],
            decreases 29 - i,
        {
            if self.bytes[i] != other.bytes[i] {
                return false;
            }
            i = i + 1;
        }
        proof {
            broadcast use vstd::array::group_array_axioms;

            assert(self.bytes =~= other.bytes);
        }
        true
    }
}

} // verus!
