//! The calls that the registries make into the Soroban host: hashing, value
//! serialisation and the ledger clock. Each item here is trusted: Verus takes
//! its contract as given. The serialisation contracts state the `ScVal` XDR
//! form that `ToXdr::to_xdr` produces, as laid out in `crate::xdr`.
//!
//! Every call here is metered by the host's resource budget; a call made
//! after the budget is spent aborts the invocation, which no contract here
//! states.

use crate::types::{Address, AddressKind, Uid};
use crate::xdr::{
    valid_symbol, xdr_address, xdr_bytes, xdr_option_u64, xdr_option_uid, xdr_string, xdr_symbol,
    xdr_u64,
};
use soroban_sdk::address_payload::AddressPayload;
use soroban_sdk::xdr::ToXdr;
use soroban_sdk::{Bytes, BytesN, Env, Symbol};
use vstd::prelude::*;

verus! {

/// The Soroban environment, used here as an opaque handle to the host.
#[verifier::external_type_specification]
#[verifier::external_body]
pub struct ExEnv(Env);

/// A fixed-length host byte string.
#[verifier::external_type_specification]
#[verifier::external_body]
pub struct ExBytesN<const N: usize>(BytesN<N>);

/// A host vector.
#[verifier::external_type_specification]
#[verifier::external_body]
#[verifier::reject_recursive_types(T)]
pub struct ExHostVec<T>(soroban_sdk::Vec<T>);

/// The uids that a host vector of 32-byte strings holds, first item first.
pub uninterp spec fn index_uids(index: soroban_sdk::Vec<BytesN<32>>) -> Seq<Uid>;

/// Calls `Vec::new`. Trusted: the new host vector is empty.
#[verifier::external_body]
pub(crate) fn index_new(env: &Env) -> (index: soroban_sdk::Vec<BytesN<32>>)
    ensures
        index_uids(index) == Seq::<Uid>::empty(),
{
    soroban_sdk::Vec::new(env)
}

/// Calls `Vec::push_back` with the `BytesN<32>` that `BytesN::from_array`
/// makes from `uid` in the vector's own environment. Trusted: the vector
/// then holds its old items followed by `uid`.
#[verifier::external_body]
pub(crate) fn index_push(index: &mut soroban_sdk::Vec<BytesN<32>>, uid: &Uid)
    ensures
        index_uids(*final(index)) == index_uids(*old(index)).push(*uid),
{
    let env = index.env().clone();
    index.push_back(BytesN::<32>::from_array(&env, uid));
}

/// Calls `Vec::remove` at position 0. Trusted: on a non-empty vector it
/// drops the first item and keeps the others in order.
#[verifier::external_body]
pub(crate) fn index_remove_first(index: &mut soroban_sdk::Vec<BytesN<32>>)
    requires
        index_uids(*old(index)).len() > 0,
    ensures
        index_uids(*final(index)) == index_uids(*old(index)).drop_first(),
{
    index.remove(0);
}

/// Calls `Vec::len`. Trusted: the result is the number of items.
#[verifier::external_body]
pub(crate) fn index_len(index: &soroban_sdk::Vec<BytesN<32>>) -> (n: u32)
    ensures
        n == index_uids(*index).len(),
{
    index.len()
}

/// Calls `Clone::clone` on a host vector. Trusted: the clone holds the same
/// items (host vectors are immutable; a change makes a new one).
#[verifier::external_body]
pub(crate) fn index_clone(index: &soroban_sdk::Vec<BytesN<32>>) -> (c: soroban_sdk::Vec<
    BytesN<32>,
>)
    ensures
        index_uids(c) == index_uids(*index),
{
    index.clone()
}

/// The SHA-256 digest of a byte sequence, as the host computes it.
pub uninterp spec fn sha256_digest(data: Seq<u8>) -> Seq<u8>;

/// Calls `Crypto::sha256` (through `env.crypto()`) on a host copy of `data`.
/// Trusted: the digest is the host's SHA-256 of exactly `data`.
#[verifier::external_body]
pub(crate) fn sha256(env: &Env, data: &[u8]) -> (digest: Uid)
    ensures
        digest@ == sha256_digest(data@),
{
    env.crypto().sha256(&Bytes::from_slice(env, data)).to_array()
}

/// Calls `Ledger::timestamp` (through `env.ledger()`). Nothing is stated of
/// the result: it is the close time of the current ledger, which the host
/// alone knows.
#[verifier::external_body]
pub(crate) fn ledger_timestamp(env: &Env) -> u64 {
    env.ledger().timestamp()
}

/// Whether `t` is a time that `ledger_timestamp` can report for `env`: a
/// reading of the ledger clock.
pub closed spec fn reads_ledger_time(env: &Env, t: u64) -> bool {
    call_ensures(ledger_timestamp, (env,), t)
}

/// Reads the ledger clock once and returns what it reported.
pub(crate) fn read_ledger_time(env: &Env) -> (t: u64)
    ensures
        reads_ledger_time(env, t),
{
    let read = ledger_timestamp;
    read(env)
}

/// Calls `ToXdr::to_xdr` on the `Symbol` made by `Symbol::new` from `name`.
/// Trusted: the result is the `ScVal::Symbol` XDR of the text, and
/// `Symbol::new` accepts every valid symbol.
#[verifier::external_body]
pub(crate) fn symbol_xdr(env: &Env, name: &str) -> (out: Vec<u8>)
    requires
        valid_symbol(name@),
    ensures
        out@ == xdr_symbol(name@),
{
    Symbol::new(env, name).to_xdr(env).iter().collect()
}

/// Calls `ToXdr::to_xdr` on the `String` made by `String::from_bytes` from
/// `data`. Trusted: the result is the `ScVal::String` XDR of those bytes.
#[verifier::external_body]
pub(crate) fn string_xdr(env: &Env, data: &[u8]) -> (out: Vec<u8>)
    requires
        data@.len() <= u32::MAX,
    ensures
        out@ == xdr_string(data@),
{
    soroban_sdk::String::from_bytes(env, data).to_xdr(env).iter().collect()
}

/// Calls `ToXdr::to_xdr` on the `Bytes` made by `Bytes::from_slice` from
/// `data`. Trusted: the result is the `ScVal::Bytes` XDR of those bytes.
#[verifier::external_body]
pub(crate) fn bytes_xdr(env: &Env, data: &[u8]) -> (out: Vec<u8>)
    requires
        data@.len() <= u32::MAX,
    ensures
        out@ == xdr_bytes(data@),
{
    Bytes::from_slice(env, data).to_xdr(env).iter().collect()
}

/// Calls `ToXdr::to_xdr` on the `BytesN<32>` made by `BytesN::from_array`.
/// Trusted: the result is the `ScVal::Bytes` XDR of the 32 bytes.
#[verifier::external_body]
pub(crate) fn uid_xdr(env: &Env, uid: &Uid) -> (out: Vec<u8>)
    ensures
        out@ == xdr_bytes(uid@),
{
    BytesN::<32>::from_array(env, uid).to_xdr(env).iter().collect()
}

/// Calls `ToXdr::to_xdr` on the host `Address` that `Address::from_payload`
/// makes from the kind and the 32-byte payload of `address`. Trusted: the
/// result is the `ScVal::Address` XDR of that account or contract address.
#[verifier::external_body]
pub(crate) fn address_xdr(env: &Env, address: &Address) -> (out: Vec<u8>)
    ensures
        out@ == xdr_address(*address),
{
    let key = BytesN::<32>::from_array(env, &address.key);
    let payload = match address.kind {
        AddressKind::Account => AddressPayload::AccountIdPublicKeyEd25519(key),
        AddressKind::Contract => AddressPayload::ContractIdHash(key),
    };
    soroban_sdk::Address::from_payload(env, payload).to_xdr(env).iter().collect()
}

/// Calls `ToXdr::to_xdr` on an `Option<u64>`. Trusted: `None` gives the
/// `ScVal::Void` XDR and `Some(v)` the `ScVal::U64` XDR of `v`.
#[verifier::external_body]
pub(crate) fn option_u64_xdr(env: &Env, value: Option<u64>) -> (out: Vec<u8>)
    ensures
        out@ == xdr_option_u64(value),
{
    value.to_xdr(env).iter().collect()
}

/// Calls `ToXdr::to_xdr` on an `Option<BytesN<32>>`. Trusted: `None` gives
/// the `ScVal::Void` XDR and `Some(u)` the `ScVal::Bytes` XDR of `u`.
#[verifier::external_body]
pub(crate) fn option_uid_xdr(env: &Env, value: &Option<Uid>) -> (out: Vec<u8>)
    ensures
        out@ == xdr_option_uid(*value),
{
    let host_value: Option<BytesN<32>> = match value {
        Some(u) => Some(BytesN::<32>::from_array(env, u)),
        None => None,
    };
    host_value.to_xdr(env).iter().collect()
}

/// Calls `ToXdr::to_xdr` on a `u64`. Trusted: the result is the `ScVal::U64`
/// XDR of the value.
#[verifier::external_body]
pub(crate) fn u64_xdr(env: &Env, value: u64) -> (out: Vec<u8>)
    ensures
        out@ == xdr_u64(value),
{
    value.to_xdr(env).iter().collect()
}

} // verus!
