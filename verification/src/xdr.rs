//! The XDR form of the values that make up a uid preimage, and the proof that a
//! preimage determines the fields it was built from.
//!
//! Every value is serialised in its `ScVal` form: a 4-byte big-endian type tag
//! followed by the body. Variable-length bodies carry a 4-byte big-endian
//! length and are padded with zero bytes to a multiple of four.

use crate::types::{Address, AddressKind, Uid};
use vstd::prelude::*;
use vstd::utf8::encode_utf8;
use vstd::utf8::decode_utf8;
use vstd::utf8::encode_utf8_decode_utf8;
use vstd::utf8::is_ascii_chars;
use vstd::utf8::is_ascii_chars_encode_utf8;

verus! {

/// `ScVal` type tag of the unit value (what `None` serialises to).
pub const SCV_VOID: u32 = 1;

/// `ScVal` type tag of a `u64`.
pub const SCV_U64: u32 = 5;

/// `ScVal` type tag of a byte string.
pub const SCV_BYTES: u32 = 13;

/// `ScVal` type tag of a string.
pub const SCV_STRING: u32 = 14;

/// `ScVal` type tag of a symbol.
pub const SCV_SYMBOL: u32 = 15;

/// `ScVal` type tag of an address.
pub const SCV_ADDRESS: u32 = 18;

/// The longest symbol the ledger accepts, in characters.
pub const SYMBOL_MAX_LEN: usize = 32;

/// A 32-bit value in big-endian byte order.
pub open spec fn be32(x: u32) -> Seq<u8> {
    seq![(x >> 24u32) as u8, (x >> 16u32) as u8, (x >> 8u32) as u8, x as u8]
}

/// A 64-bit value in big-endian byte order.
pub open spec fn be64(x: u64) -> Seq<u8> {
    seq![
        (x >> 56u64) as u8,
        (x >> 48u64) as u8,
        (x >> 40u64) as u8,
        (x >> 32u64) as u8,
        (x >> 24u64) as u8,
        (x >> 16u64) as u8,
        (x >> 8u64) as u8,
        x as u8,
    ]
}

/// Number of zero bytes that pad a body of `n` bytes to a multiple of four.
pub open spec fn pad_len(n: nat) -> nat {
    if n % 4 == 0 {
        0
    } else {
        (4 - n % 4) as nat
    }
}

/// The zero padding after a body of `n` bytes.
pub open spec fn padding(n: nat) -> Seq<u8> {
    Seq::new(pad_len(n), |i: int| 0u8)
}

/// A tagged, length-prefixed, padded byte body.
pub open spec fn opaque(tag: u32, data: Seq<u8>) -> Seq<u8> {
    be32(tag) + be32(data.len() as u32) + data + padding(data.len())
}

/// A character that a symbol may hold: `a-z`, `A-Z`, `0-9` or `_`.
pub open spec fn is_symbol_char(c: char) -> bool {
    ||| ('a' <= c && c <= 'z')
    ||| ('A' <= c && c <= 'Z')
    ||| ('0' <= c && c <= '9')
    ||| c == '_'
}

/// Text that the ledger accepts as a symbol.
pub open spec fn valid_symbol(name: Seq<char>) -> bool {
    &&& name.len() <= SYMBOL_MAX_LEN
    &&& forall|i: int| 0 <= i < name.len() ==> is_symbol_char(#[trigger] name[i])
}

/// XDR of a `u64`.
pub open spec fn xdr_u64(v: u64) -> Seq<u8> {
    be32(SCV_U64) + be64(v)
}

/// XDR of a byte string.
pub open spec fn xdr_bytes(data: Seq<u8>) -> Seq<u8> {
    opaque(SCV_BYTES, data)
}

/// XDR of a string whose bytes are `data`.
pub open spec fn xdr_string(data: Seq<u8>) -> Seq<u8> {
    opaque(SCV_STRING, data)
}

/// XDR of the symbol whose text is `name`.
pub open spec fn xdr_symbol(name: Seq<char>) -> Seq<u8> {
    opaque(SCV_SYMBOL, encode_utf8(name))
}

/// XDR of an address: the address tag, the address kind, then the payload
/// (for an account, after the tag of an Ed25519 public key).
pub open spec fn xdr_address(a: Address) -> Seq<u8> {
    be32(SCV_ADDRESS) + match a.kind {
        AddressKind::Account => be32(0) + (be32(0) + a.key@),
        AddressKind::Contract => be32(1) + a.key@,
    }
}

/// XDR of an optional `u64`: the unit value for `None`.
pub open spec fn xdr_option_u64(o: Option<u64>) -> Seq<u8> {
    match o {
        None => be32(SCV_VOID),
        Some(v) => xdr_u64(v),
    }
}

/// XDR of an optional uid: the unit value for `None`, the bytes otherwise.
pub open spec fn xdr_option_uid(o: Option<Uid>) -> Seq<u8> {
    match o {
        None => be32(SCV_VOID),
        Some(u) => xdr_bytes(u@),
    }
}

/// The bytes hashed into a schema uid: `xdr(name) || xdr(definition) || xdr(authority)`.
pub open spec fn schema_preimage(name: Seq<char>, definition: Seq<u8>, authority: Address) -> Seq<u8> {
    xdr_symbol(name) + xdr_string(definition) + xdr_address(authority)
}

/// The bytes hashed into an attestation uid: the XDR of every field of the
/// claim followed by the issuer's nonce.
pub open spec fn attestation_preimage(
    schema_uid: Uid,
    issuer: Address,
    subject: Address,
    data: Seq<u8>,
    expiration: Option<u64>,
    ref_uid: Option<Uid>,
    nonce: u64,
) -> Seq<u8> {
    xdr_bytes(schema_uid@) + xdr_address(issuer) + xdr_address(subject) + xdr_bytes(data)
        + xdr_option_u64(expiration) + xdr_option_uid(ref_uid) + xdr_u64(nonce)
}

proof fn lemma_be32_injective(x: u32, y: u32)
    requires
        be32(x) == be32(y),
    ensures
        x == y,
{
    assert(be32(x)[0] == be32(y)[0]);
    assert(be32(x)[1] == be32(y)[1]);
    assert(be32(x)[2] == be32(y)[2]);
    assert(be32(x)[3] == be32(y)[3]);
    assert(((x >> 24u32) as u8 == (y >> 24u32) as u8 && (x >> 16u32) as u8 == (y >> 16u32) as u8
        && (x >> 8u32) as u8 == (y >> 8u32) as u8 && x as u8 == y as u8) ==> x == y) by (bit_vector);
}

proof fn lemma_be64_injective(x: u64, y: u64)
    requires
        be64(x) == be64(y),
    ensures
        x == y,
{
    assert(be64(x)[0] == be64(y)[0]);
    assert(be64(x)[1] == be64(y)[1]);
    assert(be64(x)[2] == be64(y)[2]);
    assert(be64(x)[3] == be64(y)[3]);
    assert(be64(x)[4] == be64(y)[4]);
    assert(be64(x)[5] == be64(y)[5]);
    assert(be64(x)[6] == be64(y)[6]);
    assert(be64(x)[7] == be64(y)[7]);
    assert(((x >> 56u64) as u8 == (y >> 56u64) as u8 && (x >> 48u64) as u8 == (y >> 48u64) as u8
        && (x >> 40u64) as u8 == (y >> 40u64) as u8 && (x >> 32u64) as u8 == (y >> 32u64) as u8
        && (x >> 24u64) as u8 == (y >> 24u64) as u8 && (x >> 16u64) as u8 == (y >> 16u64) as u8
        && (x >> 8u64) as u8 == (y >> 8u64) as u8 && x as u8 == y as u8) ==> x == y)
        by (bit_vector);
}

/// Two concatenations whose first parts have the same length agree part by part.
proof fn lemma_split(x: Seq<u8>, r1: Seq<u8>, y: Seq<u8>, r2: Seq<u8>)
    requires
        x + r1 == y + r2,
        x.len() == y.len(),
    ensures
        x == y,
        r1 == r2,
{
    assert(x =~= (x + r1).subrange(0, x.len() as int));
    assert(y =~= (y + r2).subrange(0, y.len() as int));
    assert(r1 =~= (x + r1).subrange(x.len() as int, (x + r1).len() as int));
    assert(r2 =~= (y + r2).subrange(y.len() as int, (y + r2).len() as int));
}

/// A tagged body is read back from the front of a byte string.
proof fn lemma_opaque_prefix(tag: u32, a: Seq<u8>, b: Seq<u8>, r1: Seq<u8>, r2: Seq<u8>)
    requires
        a.len() <= u32::MAX,
        b.len() <= u32::MAX,
        opaque(tag, a) + r1 == opaque(tag, b) + r2,
    ensures
        a == b,
        r1 == r2,
{
    let ta = a + (padding(a.len()) + r1);
    let tb = b + (padding(b.len()) + r2);
    assert(opaque(tag, a) + r1 =~= be32(tag) + (be32(a.len() as u32) + ta));
    assert(opaque(tag, b) + r2 =~= be32(tag) + (be32(b.len() as u32) + tb));
    lemma_split(be32(tag), be32(a.len() as u32) + ta, be32(tag), be32(b.len() as u32) + tb);
    lemma_split(be32(a.len() as u32), ta, be32(b.len() as u32), tb);
    lemma_be32_injective(a.len() as u32, b.len() as u32);
    lemma_split(a, padding(a.len()) + r1, b, padding(b.len()) + r2);
    lemma_split(padding(a.len()), r1, padding(b.len()), r2);
}

/// An address is read back from the front of a byte string.
proof fn lemma_address_prefix(a: Address, b: Address, r1: Seq<u8>, r2: Seq<u8>)
    requires
        xdr_address(a) + r1 == xdr_address(b) + r2,
    ensures
        a == b,
        r1 == r2,
{
    let ka: u32 = match a.kind {
        AddressKind::Account => 0,
        AddressKind::Contract => 1,
    };
    let kb: u32 = match b.kind {
        AddressKind::Account => 0,
        AddressKind::Contract => 1,
    };
    let ba = match a.kind {
        AddressKind::Account => be32(0) + a.key@,
        AddressKind::Contract => a.key@,
    };
    let bb = match b.kind {
        AddressKind::Account => be32(0) + b.key@,
        AddressKind::Contract => b.key@,
    };
    assert(xdr_address(a) + r1 =~= be32(SCV_ADDRESS) + (be32(ka) + (ba + r1)));
    assert(xdr_address(b) + r2 =~= be32(SCV_ADDRESS) + (be32(kb) + (bb + r2)));
    lemma_split(be32(SCV_ADDRESS), be32(ka) + (ba + r1), be32(SCV_ADDRESS), be32(kb) + (bb + r2));
    lemma_split(be32(ka), ba + r1, be32(kb), bb + r2);
    lemma_be32_injective(ka, kb);
    assert(a.kind == b.kind);
    match a.kind {
        AddressKind::Account => {
            assert(ba + r1 =~= be32(0) + (a.key@ + r1));
            assert(bb + r2 =~= be32(0) + (b.key@ + r2));
            lemma_split(be32(0), a.key@ + r1, be32(0), b.key@ + r2);
        },
        AddressKind::Contract => {},
    }
    lemma_split(a.key@, r1, b.key@, r2);
    assert(a.key =~= b.key);
}

/// A `u64` is read back from the front of a byte string.
proof fn lemma_u64_prefix(x: u64, y: u64, r1: Seq<u8>, r2: Seq<u8>)
    requires
        xdr_u64(x) + r1 == xdr_u64(y) + r2,
    ensures
        x == y,
        r1 == r2,
{
    assert(xdr_u64(x) + r1 =~= be32(SCV_U64) + (be64(x) + r1));
    assert(xdr_u64(y) + r2 =~= be32(SCV_U64) + (be64(y) + r2));
    lemma_split(be32(SCV_U64), be64(x) + r1, be32(SCV_U64), be64(y) + r2);
    lemma_split(be64(x), r1, be64(y), r2);
    lemma_be64_injective(x, y);
}

/// An optional `u64` is read back from the front of a byte string.
proof fn lemma_option_u64_prefix(x: Option<u64>, y: Option<u64>, r1: Seq<u8>, r2: Seq<u8>)
    requires
        xdr_option_u64(x) + r1 == xdr_option_u64(y) + r2,
    ensures
        x == y,
        r1 == r2,
{
    let tx: u32 = if x is Some { SCV_U64 } else { SCV_VOID };
    let ty: u32 = if y is Some { SCV_U64 } else { SCV_VOID };
    let bx = match x {
        Some(v) => be64(v),
        None => Seq::<u8>::empty(),
    };
    let by = match y {
        Some(v) => be64(v),
        None => Seq::<u8>::empty(),
    };
    assert(xdr_option_u64(x) + r1 =~= be32(tx) + (bx + r1));
    assert(xdr_option_u64(y) + r2 =~= be32(ty) + (by + r2));
    lemma_split(be32(tx), bx + r1, be32(ty), by + r2);
    lemma_be32_injective(tx, ty);
    lemma_split(bx, r1, by, r2);
    if x is Some {
        lemma_be64_injective(x->0, y->0);
    }
}

/// An optional uid is read back from the front of a byte string.
proof fn lemma_option_uid_prefix(x: Option<Uid>, y: Option<Uid>, r1: Seq<u8>, r2: Seq<u8>)
    requires
        xdr_option_uid(x) + r1 == xdr_option_uid(y) + r2,
    ensures
        x == y,
        r1 == r2,
{
    let tx: u32 = if x is Some { SCV_BYTES } else { SCV_VOID };
    let ty: u32 = if y is Some { SCV_BYTES } else { SCV_VOID };
    let bx = match x {
        Some(u) => be32(32) + (u@ + padding(32)),
        None => Seq::<u8>::empty(),
    };
    let by = match y {
        Some(u) => be32(32) + (u@ + padding(32)),
        None => Seq::<u8>::empty(),
    };
    assert(xdr_option_uid(x) + r1 =~= be32(tx) + (bx + r1));
    assert(xdr_option_uid(y) + r2 =~= be32(ty) + (by + r2));
    lemma_split(be32(tx), bx + r1, be32(ty), by + r2);
    lemma_be32_injective(tx, ty);
    lemma_split(bx, r1, by, r2);
    if x is Some {
        let u = x->0;
        let w = y->0;
        assert(bx =~= be32(32) + (u@ + padding(32)));
        assert(by =~= be32(32) + (w@ + padding(32)));
        lemma_split(be32(32), u@ + padding(32), be32(32), w@ + padding(32));
        lemma_split(u@, padding(32), w@, padding(32));
        assert(u =~= w);
    }
}

/// The bytes of a valid symbol are as many as its characters.
proof fn lemma_symbol_len(name: Seq<char>)
    requires
        valid_symbol(name),
    ensures
        encode_utf8(name).len() == name.len(),
{
    assert(is_ascii_chars(name)) by {
        assert forall|i: int| 0 <= i < name.len() implies '\0' <= #[trigger] name[i] <= '\u{7f}' by {
            assert(is_symbol_char(name[i]));
        }
    }
    is_ascii_chars_encode_utf8(name);
}

/// A schema uid preimage determines the name, the definition and the
/// authority it was built from: no two registrations that differ in any of
/// them hash the same bytes.
pub proof fn lemma_schema_preimage_injective(
    name1: Seq<char>,
    definition1: Seq<u8>,
    authority1: Address,
    name2: Seq<char>,
    definition2: Seq<u8>,
    authority2: Address,
)
    requires
        valid_symbol(name1),
        valid_symbol(name2),
        definition1.len() <= u32::MAX,
        definition2.len() <= u32::MAX,
        schema_preimage(name1, definition1, authority1) == schema_preimage(
            name2,
            definition2,
            authority2,
        ),
    ensures
        name1 == name2,
        definition1 == definition2,
        authority1 == authority2,
{
    lemma_symbol_len(name1);
    lemma_symbol_len(name2);
    let e = Seq::<u8>::empty();
    let rest1 = xdr_string(definition1) + (xdr_address(authority1) + e);
    let rest2 = xdr_string(definition2) + (xdr_address(authority2) + e);
    assert(schema_preimage(name1, definition1, authority1) =~= xdr_symbol(name1) + rest1);
    assert(schema_preimage(name2, definition2, authority2) =~= xdr_symbol(name2) + rest2);
    lemma_opaque_prefix(SCV_SYMBOL, encode_utf8(name1), encode_utf8(name2), rest1, rest2);
    encode_utf8_decode_utf8(name1);
    encode_utf8_decode_utf8(name2);
    lemma_opaque_prefix(
        SCV_STRING,
        definition1,
        definition2,
        xdr_address(authority1) + e,
        xdr_address(authority2) + e,
    );
    lemma_address_prefix(authority1, authority2, e, e);
}

/// Regroups a left-nested concatenation of seven parts to the right.
proof fn lemma_reassociate7(
    s0: Seq<u8>,
    s1: Seq<u8>,
    s2: Seq<u8>,
    s3: Seq<u8>,
    s4: Seq<u8>,
    s5: Seq<u8>,
    s6: Seq<u8>,
)
    ensures
        s0 + s1 + s2 + s3 + s4 + s5 + s6 == s0 + (s1 + (s2 + (s3 + (s4 + (s5 + (s6
            + Seq::<u8>::empty())))))),
{
    assert(s0 + s1 + s2 + s3 + s4 + s5 + s6 =~= s0 + (s1 + (s2 + (s3 + (s4 + (s5 + (s6
        + Seq::<u8>::empty())))))));
}

/// An attestation uid preimage determines every field of the claim and the
/// nonce: two attestations hash the same bytes only when they agree on all
/// of them, so claims made under different nonces never share a preimage.
pub proof fn lemma_attestation_preimage_injective(
    schema_uid1: Uid,
    issuer1: Address,
    subject1: Address,
    data1: Seq<u8>,
    expiration1: Option<u64>,
    ref_uid1: Option<Uid>,
    nonce1: u64,
    schema_uid2: Uid,
    issuer2: Address,
    subject2: Address,
    data2: Seq<u8>,
    expiration2: Option<u64>,
    ref_uid2: Option<Uid>,
    nonce2: u64,
)
    requires
        data1.len() <= u32::MAX,
        data2.len() <= u32::MAX,
        attestation_preimage(schema_uid1, issuer1, subject1, data1, expiration1, ref_uid1, nonce1)
            == attestation_preimage(
            schema_uid2,
            issuer2,
            subject2,
            data2,
            expiration2,
            ref_uid2,
            nonce2,
        ),
    ensures
        schema_uid1 == schema_uid2,
        issuer1 == issuer2,
        subject1 == subject2,
        data1 == data2,
        expiration1 == expiration2,
        ref_uid1 == ref_uid2,
        nonce1 == nonce2,
{
    let e = Seq::<u8>::empty();
    let t6a = xdr_u64(nonce1) + e;
    let t6b = xdr_u64(nonce2) + e;
    let t5a = xdr_option_uid(ref_uid1) + t6a;
    let t5b = xdr_option_uid(ref_uid2) + t6b;
    let t4a = xdr_option_u64(expiration1) + t5a;
    let t4b = xdr_option_u64(expiration2) + t5b;
    let t3a = xdr_bytes(data1) + t4a;
    let t3b = xdr_bytes(data2) + t4b;
    let t2a = xdr_address(subject1) + t3a;
    let t2b = xdr_address(subject2) + t3b;
    let t1a = xdr_address(issuer1) + t2a;
    let t1b = xdr_address(issuer2) + t2b;
    lemma_reassociate7(
        xdr_bytes(schema_uid1@),
        xdr_address(issuer1),
        xdr_address(subject1),
        xdr_bytes(data1),
        xdr_option_u64(expiration1),
        xdr_option_uid(ref_uid1),
        xdr_u64(nonce1),
    );
    lemma_reassociate7(
        xdr_bytes(schema_uid2@),
        xdr_address(issuer2),
        xdr_address(subject2),
        xdr_bytes(data2),
        xdr_option_u64(expiration2),
        xdr_option_uid(ref_uid2),
        xdr_u64(nonce2),
    );
    lemma_opaque_prefix(SCV_BYTES, schema_uid1@, schema_uid2@, t1a, t1b);
    assert(schema_uid1 =~= schema_uid2);
    lemma_address_prefix(issuer1, issuer2, t2a, t2b);
    lemma_address_prefix(subject1, subject2, t3a, t3b);
    lemma_opaque_prefix(SCV_BYTES, data1, data2, t4a, t4b);
    lemma_option_u64_prefix(expiration1, expiration2, t5a, t5b);
    lemma_option_uid_prefix(ref_uid1, ref_uid2, t6a, t6b);
    lemma_u64_prefix(nonce1, nonce2, e, e);
}


/// The bytes of a 32-bit big-endian value, by arithmetic.
proof fn lemma_be32_digits(x: u32)
    ensures
        be32(x).len() == 4,
        be32(x)[0] == x / 0x1000000,
        be32(x)[1] == (x / 0x10000) % 0x100,
        be32(x)[2] == (x / 0x100) % 0x100,
        be32(x)[3] == x % 0x100,
{
    assert(((x >> 24u32) as u8) as u32 == x / 0x1000000u32 && ((x >> 16u32) as u8) as u32 == (x
        / 0x10000u32) % 0x100u32 && ((x >> 8u32) as u8) as u32 == (x / 0x100u32) % 0x100u32 && (
    x as u8) as u32 == x % 0x100u32) by (bit_vector);
}

/// The bytes of a 64-bit big-endian value, by arithmetic.
proof fn lemma_be64_digits(x: u64)
    ensures
        be64(x).len() == 8,
        be64(x)[0] == x / 0x100000000000000,
        be64(x)[1] == (x / 0x1000000000000) % 0x100,
        be64(x)[2] == (x / 0x10000000000) % 0x100,
        be64(x)[3] == (x / 0x100000000) % 0x100,
        be64(x)[4] == (x / 0x1000000) % 0x100,
        be64(x)[5] == (x / 0x10000) % 0x100,
        be64(x)[6] == (x / 0x100) % 0x100,
        be64(x)[7] == x % 0x100,
{
    assert(((x >> 56u64) as u8) as u64 == x / 0x100000000000000u64 && ((x >> 48u64) as u8) as u64
        == (x / 0x1000000000000u64) % 0x100u64 && ((x >> 40u64) as u8) as u64 == (x
        / 0x10000000000u64) % 0x100u64 && ((x >> 32u64) as u8) as u64 == (x / 0x100000000u64)
        % 0x100u64) by (bit_vector);
    assert(((x >> 24u64) as u8) as u64 == (x / 0x1000000u64) % 0x100u64 && ((x >> 16u64) as u8)
        as u64 == (x / 0x10000u64) % 0x100u64 && ((x >> 8u64) as u8) as u64 == (x / 0x100u64)
        % 0x100u64 && (x as u8) as u64 == x % 0x100u64) by (bit_vector);
}

/// `x` lays out `body` byte by byte under the one-byte type tag `tag`: the
/// bytes `0, 0, 0, tag`, the length of `body` in four big-endian bytes,
/// `body` itself, then zero bytes up to the next multiple of four, and
/// nothing else.
pub open spec fn padded_body_layout(x: Seq<u8>, tag: u8, body: Seq<u8>) -> bool {
    let n = body.len();
    &&& x.len() % 4 == 0
    &&& n + 8 <= x.len() < n + 12
    &&& x[0] == 0 && x[1] == 0 && x[2] == 0 && x[3] == tag
    &&& x[4] == n / 0x1000000 && x[5] == (n / 0x10000) % 0x100 && x[6] == (n / 0x100) % 0x100
        && x[7] == n % 0x100
    &&& x.subrange(8, n + 8 as int) == body
    &&& forall|i: int| n + 8 <= i < x.len() ==> #[trigger] x[i] == 0
}

/// The layout of a tagged, length-prefixed, padded body.
proof fn lemma_opaque_layout(tag: u32, data: Seq<u8>)
    requires
        tag < 0x100,
        data.len() <= u32::MAX,
    ensures
        padded_body_layout(opaque(tag, data), tag as u8, data),
{
    let n = data.len();
    let x = opaque(tag, data);
    lemma_be32_digits(tag);
    lemma_be32_digits(n as u32);
    let head = be32(tag) + be32(n as u32);
    assert(x =~= head + data + padding(n));
    assert(x.len() == n + 8 + pad_len(n));
    assert(x.len() % 4 == 0);
    assert(x[0] == be32(tag)[0] && x[1] == be32(tag)[1] && x[2] == be32(tag)[2] && x[3]
        == be32(tag)[3]);
    assert(x[4] == be32(n as u32)[0] && x[5] == be32(n as u32)[1] && x[6] == be32(n as u32)[2]
        && x[7] == be32(n as u32)[3]);
    assert(x.subrange(8, n + 8 as int) =~= data);
    assert forall|i: int| n + 8 <= i < x.len() implies #[trigger] x[i] == 0 by {
        assert(x[i] == padding(n)[i - n - 8]);
    }
}

/// The XDR of a byte string is the tag 13, the length, the bytes and their
/// zero padding, and nothing else.
pub proof fn law_xdr_bytes_layout(data: Seq<u8>)
    requires
        data.len() <= u32::MAX,
    ensures
        padded_body_layout(xdr_bytes(data), 13, data),
{
    lemma_opaque_layout(SCV_BYTES, data);
}

/// The XDR of a string is the tag 14, the length, the bytes and their zero
/// padding, and nothing else.
pub proof fn law_xdr_string_layout(data: Seq<u8>)
    requires
        data.len() <= u32::MAX,
    ensures
        padded_body_layout(xdr_string(data), 14, data),
{
    lemma_opaque_layout(SCV_STRING, data);
}

/// The XDR of a valid symbol is the tag 15, the number of characters, one
/// byte per character (its ASCII code) and zero padding, and nothing else.
pub proof fn law_xdr_symbol_layout(name: Seq<char>)
    requires
        valid_symbol(name),
    ensures
        padded_body_layout(xdr_symbol(name), 15, encode_utf8(name)),
        encode_utf8(name).len() == name.len(),
        forall|i: int| 0 <= i < name.len() ==> #[trigger] encode_utf8(name)[i] == name[i] as u8,
{
    lemma_symbol_len(name);
    assert(is_ascii_chars(name)) by {
        assert forall|i: int| 0 <= i < name.len() implies '\0' <= #[trigger] name[i] <= '\u{7f}' by {
            assert(is_symbol_char(name[i]));
        }
    }
    is_ascii_chars_encode_utf8(name);
    lemma_opaque_layout(SCV_SYMBOL, encode_utf8(name));
}

/// The XDR of an address: the tag 18, then 0 and the Ed25519 key tag 0
/// before the 32-byte key of an account, or 1 before the 32-byte hash of a
/// contract.
pub proof fn law_xdr_address_layout(a: Address)
    ensures
        xdr_address(a) == match a.kind {
            AddressKind::Account => seq![0u8, 0, 0, 18, 0, 0, 0, 0, 0, 0, 0, 0] + a.key@,
            AddressKind::Contract => seq![0u8, 0, 0, 18, 0, 0, 0, 1] + a.key@,
        },
{
    lemma_be32_digits(SCV_ADDRESS);
    lemma_be32_digits(0);
    lemma_be32_digits(1);
    match a.kind {
        AddressKind::Account => {
            assert(xdr_address(a) =~= seq![0u8, 0, 0, 18, 0, 0, 0, 0, 0, 0, 0, 0] + a.key@);
        },
        AddressKind::Contract => {
            assert(xdr_address(a) =~= seq![0u8, 0, 0, 18, 0, 0, 0, 1] + a.key@);
        },
    }
}

/// The XDR of a `u64`: the tag 5, then the value in eight big-endian bytes.
pub proof fn law_xdr_u64_layout(v: u64)
    ensures
        xdr_u64(v).len() == 12,
        xdr_u64(v).subrange(0, 4) == seq![0u8, 0, 0, 5],
        xdr_u64(v)[4] == v / 0x100000000000000,
        xdr_u64(v)[5] == (v / 0x1000000000000) % 0x100,
        xdr_u64(v)[6] == (v / 0x10000000000) % 0x100,
        xdr_u64(v)[7] == (v / 0x100000000) % 0x100,
        xdr_u64(v)[8] == (v / 0x1000000) % 0x100,
        xdr_u64(v)[9] == (v / 0x10000) % 0x100,
        xdr_u64(v)[10] == (v / 0x100) % 0x100,
        xdr_u64(v)[11] == v % 0x100,
{
    lemma_be32_digits(SCV_U64);
    lemma_be64_digits(v);
    assert(xdr_u64(v).subrange(0, 4) =~= seq![0u8, 0, 0, 5]);
}

/// The XDR of an optional `u64`: the four bytes `0, 0, 0, 1` of the unit
/// value for `None`, the XDR of the value for `Some`.
pub proof fn law_xdr_option_u64_layout(o: Option<u64>)
    ensures
        xdr_option_u64(o) == match o {
            None => seq![0u8, 0, 0, 1],
            Some(v) => xdr_u64(v),
        },
{
    lemma_be32_digits(SCV_VOID);
    assert(be32(SCV_VOID) =~= seq![0u8, 0, 0, 1]);
}

/// The XDR of an optional uid: the four bytes `0, 0, 0, 1` of the unit value
/// for `None`, the tag 13 and the length 32 before the 32 bytes for `Some`.
pub proof fn law_xdr_option_uid_layout(o: Option<Uid>)
    ensures
        xdr_option_uid(o) == match o {
            None => seq![0u8, 0, 0, 1],
            Some(u) => seq![0u8, 0, 0, 13, 0, 0, 0, 32] + u@,
        },
{
    lemma_be32_digits(SCV_VOID);
    lemma_be32_digits(SCV_BYTES);
    lemma_be32_digits(32);
    match o {
        None => {
            assert(be32(SCV_VOID) =~= seq![0u8, 0, 0, 1]);
        },
        Some(u) => {
            assert(padding(32) =~= Seq::<u8>::empty());
            assert(xdr_option_uid(o) =~= seq![0u8, 0, 0, 13, 0, 0, 0, 32] + u@);
        },
    }
}

/// A schema uid preimage is the XDR of the name, then the XDR of the
/// definition, then the XDR of the authority, with nothing between or after
/// them.
pub proof fn law_schema_preimage_layout(name: Seq<char>, definition: Seq<u8>, authority: Address)
    ensures
        schema_preimage(name, definition, authority) == xdr_symbol(name) + xdr_string(definition)
            + xdr_address(authority),
{
}

/// An attestation uid preimage is the XDR of the schema uid, the issuer,
/// the subject, the data, the expiration, the referenced uid and the nonce,
/// in that order, with nothing between or after them.
pub proof fn law_attestation_preimage_layout(
    schema_uid: Uid,
    issuer: Address,
    subject: Address,
    data: Seq<u8>,
    expiration: Option<u64>,
    ref_uid: Option<Uid>,
    nonce: u64,
)
    ensures
        attestation_preimage(schema_uid, issuer, subject, data, expiration, ref_uid, nonce)
            == xdr_bytes(schema_uid@) + xdr_address(issuer) + xdr_address(subject) + xdr_bytes(data)
            + xdr_option_u64(expiration) + xdr_option_uid(ref_uid) + xdr_u64(nonce),
{
}

} // verus!
