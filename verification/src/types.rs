//! Plain values that identify things on the ledger: 32-byte uids and addresses.

use vstd::prelude::*;

verus! {

/// A 32-byte identifier: a schema uid or an attestation uid.
pub type Uid = [u8; 32];

/// The two kinds of address that a registry deals with.
#[derive(Clone, Copy, Debug, PartialEq, Eq)]
pub enum AddressKind {
    /// An account address (`G...`), identified by its Ed25519 public key.
    Account,
    /// A contract address (`C...`), identified by its contract hash.
    Contract,
}

/// An address on the ledger, held as its kind and its 32-byte payload.
#[derive(Clone, Copy, Debug, PartialEq, Eq)]
pub struct Address {
    pub kind: AddressKind,
    pub key: [u8; 32],
}

impl Address {
    /// The account address whose Ed25519 public key is `key`.
    pub fn account(key: [u8; 32]) -> (a: Address)
        ensures
            a.kind == AddressKind::Account,
            a.key == key,
    {
        Address { kind: AddressKind::Account, key }
    }

    /// The contract address whose contract hash is `key`.
    pub fn contract(key: [u8; 32]) -> (a: Address)
        ensures
            a.kind == AddressKind::Contract,
            a.key == key,
    {
        Address { kind: AddressKind::Contract, key }
    }
}

/// Compares two 32-byte values byte by byte.
pub fn same_bytes32(a: &[u8; 32], b: &[u8; 32]) -> (r: bool)
    ensures
        r == (*a == *b),
{
    let mut i: usize = 0;
    while i < 32
        invariant
            0 <= i <= 32,
            forall|j: int| 0 <= j < i ==> a@[j] == b@[j],
        decreases 32 - i,
    {
        if a[i] != b[i] {
            assert(a@[i as int] != b@[i as int]);
            return false;
        }
        i = i + 1;
    }
    assert(a@ =~= b@);
    assert(*a =~= *b);
    true
}

/// Compares two addresses: same kind and same payload.
pub fn same_address(a: &Address, b: &Address) -> (r: bool)
    ensures
        r == (*a == *b),
{
    let same_kind = match (a.kind, b.kind) {
        (AddressKind::Account, AddressKind::Account) => true,
        (AddressKind::Contract, AddressKind::Contract) => true,
        _ => false,
    };
    same_kind && same_bytes32(&a.key, &b.key)
}

/// The uid whose bytes are `digest` (a 32-byte digest names exactly one uid).
pub open spec fn uid_of(digest: Seq<u8>) -> Uid {
    choose|u: Uid| u@ == digest
}

/// A uid is the uid of its own bytes.
pub proof fn lemma_uid_of_view(u: Uid)
    ensures
        uid_of(u@) == u,
{
    let v = uid_of(u@);
    assert(v@ == u@);
    assert(v =~= u);
}

/// Appends the bytes of `part` to `buf`.
pub fn append_bytes(buf: &mut Vec<u8>, part: &Vec<u8>)
    ensures
        final(buf)@ == old(buf)@ + part@,
{
    let ghost start = buf@;
    let mut i: usize = 0;
    while i < part.len()
        invariant
            i <= part@.len(),
            buf@ == start + part@.subrange(0, i as int),
        decreases part@.len() - i,
    {
        buf.push(part[i]);
        i = i + 1;
        assert(buf@ =~= start + part@.subrange(0, i as int));
    }
    assert(part@.subrange(0, part@.len() as int) =~= part@);
}

/// A copy of a byte vector.
pub fn copy_bytes(v: &Vec<u8>) -> (r: Vec<u8>)
    ensures
        r@ == v@,
{
    let mut r: Vec<u8> = Vec::new();
    append_bytes(&mut r, v);
    assert(r@ =~= v@);
    r
}

} // verus!
