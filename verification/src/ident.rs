//! Package identities: the canonical key for a package is its source URL,
//! held as an opaque, case-sensitive byte string.

use vstd::prelude::*;

verus! {

/// A byte acceptable in a package identity: printable ASCII, no space.
/// This keeps identities unambiguous inside the ledger's line encoding.
pub open spec fn identity_byte_ok(b: u8) -> bool {
    0x21 <= b <= 0x7e
}

/// Position `i` in `s` starts a URL scheme separator `://`, with at least
/// one scheme byte before it.
pub open spec fn is_scheme_sep(s: Seq<u8>, i: int) -> bool {
    &&& 1 <= i
    &&& i + 3 <= s.len()
    &&& s[i] == 58u8
    &&& s[i + 1] == 47u8
    &&& s[i + 2] == 47u8
}

/// A package identity is URL-shaped: non-empty, printable ASCII without
/// spaces, and it carries a scheme separator `://`.
pub open spec fn valid_identity(s: Seq<u8>) -> bool {
    &&& s.len() > 0
    &&& (forall|i: int| 0 <= i < s.len() ==> identity_byte_ok(#[trigger] s[i]))
    &&& (exists|i: int| is_scheme_sep(s, i))
}

/// The canonical key for a package: its source URL as bytes.
#[derive(Debug, PartialEq, Eq)]
pub struct PackageIdentity {
    bytes: Vec<u8>,
}

impl View for PackageIdentity {
    type V = Seq<u8>;

    closed spec fn view(&self) -> Seq<u8> {
        self.bytes@
    }
}

impl PackageIdentity {
    /// The identity invariant: its bytes form a syntactically valid URL.
    pub open spec fn wf(&self) -> bool {
        valid_identity(self@)
    }

    /// Validates a URL given as bytes; accepts exactly the valid identities.
    pub fn new(bytes: Vec<u8>) -> (r: Option<PackageIdentity>)
        ensures
            r is Some <==> valid_identity(bytes@),
            r matches Some(id) ==> id@ == bytes@,
    {
        let n = bytes.len();
        if n == 0 {
            return None;
        }
        let mut i: usize = 0;
        while i < n
            invariant
                n == bytes.len(),
                i <= n,
                forall|j: int| 0 <= j < i ==> identity_byte_ok(#[trigger] bytes@[j]),
            decreases n - i,
        {
            let b = bytes[i];
            if b < 0x21 || b > 0x7e {
                assert(!identity_byte_ok(bytes@[i as int]));
                return None;
            }
            i = i + 1;
        }
        if n >= 4 {
            let mut i: usize = 1;
            while i <= n - 3
                invariant
                    n == bytes.len(),
                    4 <= n,
                    1 <= i,
                    forall|j: int| 1 <= j < i ==> !is_scheme_sep(bytes@, j),
                    forall|j: int| 0 <= j < n ==> identity_byte_ok(#[trigger] bytes@[j]),
                decreases n - i,
            {
                if bytes[i] == 58u8 && bytes[i + 1] == 47u8 && bytes[i + 2] == 47u8 {
                    assert(is_scheme_sep(bytes@, i as int));
                    return Some(PackageIdentity { bytes });
                }
                i = i + 1;
            }
            assert(forall|j: int| !is_scheme_sep(bytes@, j)) by {
                assert(forall|j: int| j >= i ==> !is_scheme_sep(bytes@, j));
            }
        }
        None
    }

    /// The identity's bytes, for display or transport.
    pub fn as_bytes(&self) -> (r: &Vec<u8>)
        ensures
            r@ == self@,
    {
        &self.bytes
    }

}

/// Byte-for-byte equality of two byte vectors.
pub fn bytes_eq(a: &Vec<u8>, b: &Vec<u8>) -> (r: bool)
    ensures
        r <==> a@ == b@,
{
    if a.len() != b.len() {
        assert(a@ !~= b@);
        return false;
    }
    let n = a.len();
    let mut i: usize = 0;
    while i < n
        invariant
            n == a.len() == b.len(),
            i <= n,
            forall|j: int| 0 <= j < i ==> a@[j] == b@[j],
        decreases n - i,
    {
        if a[i] != b[i] {
            assert(a@ !~= b@);
            return false;
        }
        i = i + 1;
    }
    assert(a@ =~= b@);
    true
}

} // verus!
