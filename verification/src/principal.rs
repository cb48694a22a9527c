//! Principals are handled as their raw byte representation.

use vstd::prelude::*;

verus! {

/// The byte form of the anonymous principal (a single tag byte `4`).
pub open spec fn anonymous_bytes() -> Seq<u8> {
    seq![4u8]
}

/// Returns the bytes of the anonymous principal.
pub fn anonymous_principal() -> (bytes: Vec<u8>)
    ensures
        bytes@ == anonymous_bytes(),
{
    let mut v: Vec<u8> = Vec::new();
    v.push(4u8);
    v
}

/// Byte-wise equality of two principals.
pub fn same_principal(a: &[u8], b: &[u8]) -> (eq: bool)
    ensures
        eq == (a@ == b@),
{
    if a.len() != b.len() {
        return false;
    }
    let n = a.len();
    let mut i: usize = 0;
    while i < n
        invariant
            n == a@.len(),
            n == b@.len(),
            i <= n,
            forall|j: int| 0 <= j < i ==> a@[j] == b@[j],
        decreases n - i,
    {
        if a[i] != b[i] {
            assert(a@[i as int] != b@[i as int]);
            return false;
        }
        i = i + 1;
    }
    assert(a@ =~= b@);
    true
}

/// Whether the given principal is the anonymous one.
pub fn is_anonymous(p: &[u8]) -> (anon: bool)
    ensures
        anon == (p@ == anonymous_bytes()),
{
    let anon = anonymous_principal();
    same_principal(p, anon.as_slice())
}

/// Copies a principal.
pub fn copy_principal(p: &Vec<u8>) -> (c: Vec<u8>)
    ensures
        c@ == p@,
{
    let mut c: Vec<u8> = Vec::new();
    let n = p.len();
    let mut i: usize = 0;
    while i < n
        invariant
            n == p@.len(),
            i <= n,
            c@ == p@.subrange(0, i as int),
        decreases n - i,
    {
        c.push(p[i]);
        i = i + 1;
        assert(c@ =~= p@.subrange(0, i as int));
    }
    assert(p@.subrange(0, n as int) =~= p@);
    c
}

} // verus!
