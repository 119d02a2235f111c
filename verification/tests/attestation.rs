use astrolabe::attestation::{
    derive_uid, AttestationContract, AttestationEvent, Attested, Error, Revoked, MAX_DATA_LEN,
    MAX_SUBJECT_INDEX,
};
use astrolabe::schema_registry::SchemaRegistry;
use astrolabe::types::{Address, Uid};
use soroban_sdk::testutils::Ledger as _;
use soroban_sdk::{Bytes, BytesN, Env};

struct Fixture {
    env: Env,
    att: AttestationContract,
    registry: SchemaRegistry,
    authority: Address,
    issuer: Address,
    subject: Address,
}

fn setup() -> Fixture {
    let env = Env::default();
    let registry_id = Address::contract([10u8; 32]);
    let registry = SchemaRegistry::new(registry_id);
    let att = AttestationContract::new(registry_id);

    Fixture {
        authority: Address::account([1u8; 32]),
        issuer: Address::account([2u8; 32]),
        subject: Address::account([3u8; 32]),
        env,
        att,
        registry,
    }
}

fn register_schema(f: &mut Fixture, revocable: bool) -> Uid {
    f.registry
        .register_schema(
            &f.env,
            f.authority,
            String::from("merchant"),
            b"string name".to_vec(),
            revocable,
            None,
        )
        .unwrap()
}

fn uids_of(index: &soroban_sdk::Vec<BytesN<32>>) -> Vec<Uid> {
    index.iter().map(|u| u.to_array()).collect()
}

fn data() -> Vec<u8> {
    vec![1, 2, 3, 4]
}

fn attest(f: &mut Fixture, schema_uid: Uid, d: Vec<u8>, expiration: Option<u64>) -> Result<Uid, Error> {
    f.att.attest(&f.env, &f.registry, f.issuer, schema_uid, f.subject, d, expiration, None)
}

#[test]
fn attest_and_read_back() {
    let mut f = setup();
    let schema_uid = register_schema(&mut f, true);

    let uid = attest(&mut f, schema_uid, data(), None).unwrap();

    let a = f.att.get_attestation(uid).expect("exists");
    assert_eq!(a.issuer, f.issuer);
    assert_eq!(a.subject, f.subject);
    assert_eq!(a.schema_uid, schema_uid);
    assert!(!a.revoked);
    assert!(f.att.is_valid(&f.env, uid));
}

#[test]
fn attest_unknown_schema_fails() {
    let mut f = setup();
    let bogus = [7u8; 32];
    let res = attest(&mut f, bogus, data(), None);
    assert_eq!(res, Err(Error::SchemaNotFound));
}

#[test]
fn data_too_long_fails() {
    let mut f = setup();
    let schema_uid = register_schema(&mut f, true);
    let big = vec![0u8; (MAX_DATA_LEN + 1) as usize];
    let res = attest(&mut f, schema_uid, big, None);
    assert_eq!(res, Err(Error::DataTooLong));
}

#[test]
fn revoke_by_issuer_succeeds() {
    let mut f = setup();
    let schema_uid = register_schema(&mut f, true);
    let uid = attest(&mut f, schema_uid, data(), None).unwrap();

    f.att.revoke(&f.env, &f.registry, f.issuer, uid).unwrap();

    let a = f.att.get_attestation(uid).expect("exists");
    assert!(a.revoked);
    assert!(a.revocation_time.is_some());
    assert!(!f.att.is_valid(&f.env, uid));
}

#[test]
fn revoke_by_stranger_fails() {
    let mut f = setup();
    let schema_uid = register_schema(&mut f, true);
    let uid = attest(&mut f, schema_uid, data(), None).unwrap();

    let stranger = Address::account([4u8; 32]);
    let res = f.att.revoke(&f.env, &f.registry, stranger, uid);
    assert_eq!(res, Err(Error::NotAuthorizedToRevoke));
}

#[test]
fn revoke_non_revocable_schema_fails() {
    let mut f = setup();
    let schema_uid = register_schema(&mut f, false);
    let uid = attest(&mut f, schema_uid, data(), None).unwrap();

    let res = f.att.revoke(&f.env, &f.registry, f.issuer, uid);
    assert_eq!(res, Err(Error::SchemaNotRevocable));
}

#[test]
fn double_revoke_fails() {
    let mut f = setup();
    let schema_uid = register_schema(&mut f, true);
    let uid = attest(&mut f, schema_uid, data(), None).unwrap();
    f.att.revoke(&f.env, &f.registry, f.issuer, uid).unwrap();
    let res = f.att.revoke(&f.env, &f.registry, f.issuer, uid);
    assert_eq!(res, Err(Error::AlreadyRevoked));
}

#[test]
fn revoke_unknown_fails() {
    let mut f = setup();
    let bogus = [3u8; 32];
    let res = f.att.revoke(&f.env, &f.registry, f.issuer, bogus);
    assert_eq!(res, Err(Error::AttestationNotFound));
}

#[test]
fn expired_attestation_is_invalid() {
    let mut f = setup();
    f.env.ledger().with_mut(|l| l.timestamp = 1_000);
    let schema_uid = register_schema(&mut f, true);

    let uid = attest(&mut f, schema_uid, data(), Some(2_000)).unwrap();
    assert!(f.att.is_valid(&f.env, uid));

    f.env.ledger().with_mut(|l| l.timestamp = 2_001);
    assert!(!f.att.is_valid(&f.env, uid));
    // Still readable in storage; only validity flips.
    assert!(f.att.get_attestation(uid).is_some());
}

#[test]
fn subject_index_updates_and_caps() {
    let mut f = setup();
    let schema_uid = register_schema(&mut f, true);

    let total = MAX_SUBJECT_INDEX + 5;
    let mut first_uid: Option<Uid> = None;
    for i in 0..total {
        let d = vec![(i % 256) as u8];
        let uid = attest(&mut f, schema_uid, d, None).unwrap();
        if i == 0 {
            first_uid = Some(uid);
        }
    }

    let index = f.att.attestations_for_subject(&f.env, f.subject);
    assert_eq!(index.len(), MAX_SUBJECT_INDEX);
    // The oldest uid was evicted from the index.
    assert!(!index.contains(BytesN::from_array(&f.env, &first_uid.unwrap())));
    // But its record still exists in storage.
    assert_eq!(f.att.schema_attestation_count(schema_uid), total as u64);
    assert!(f.att.get_attestation(first_uid.unwrap()).is_some());
}

fn padded(tag: u32, body: &[u8]) -> Vec<u8> {
    let mut out = Vec::new();
    out.extend_from_slice(&tag.to_be_bytes());
    out.extend_from_slice(&(body.len() as u32).to_be_bytes());
    out.extend_from_slice(body);
    while out.len() % 4 != 0 {
        out.push(0);
    }
    out
}

fn account_xdr(key: [u8; 32]) -> Vec<u8> {
    let mut out = vec![0, 0, 0, 18, 0, 0, 0, 0, 0, 0, 0, 0];
    out.extend_from_slice(&key);
    out
}

#[test]
fn attestation_uid_is_sha256_of_the_field_xdr() {
    let env = Env::default();
    let uid = derive_uid(
        &env,
        &[6u8; 32],
        &Address::account([2u8; 32]),
        &Address::account([3u8; 32]),
        &[1, 2, 3, 4, 5],
        Some(2_000),
        &Some([8u8; 32]),
        3,
    );

    let mut preimage = padded(13, &[6u8; 32]);
    preimage.extend(account_xdr([2u8; 32]));
    preimage.extend(account_xdr([3u8; 32]));
    preimage.extend(padded(13, &[1, 2, 3, 4, 5]));
    preimage.extend_from_slice(&5u32.to_be_bytes());
    preimage.extend_from_slice(&2_000u64.to_be_bytes());
    preimage.extend(padded(13, &[8u8; 32]));
    preimage.extend_from_slice(&5u32.to_be_bytes());
    preimage.extend_from_slice(&3u64.to_be_bytes());
    let expected = env.crypto().sha256(&Bytes::from_slice(&env, &preimage)).to_array();

    assert_eq!(uid, expected);
}

#[test]
fn absent_options_serialise_as_void() {
    let env = Env::default();
    let uid = derive_uid(
        &env,
        &[6u8; 32],
        &Address::account([2u8; 32]),
        &Address::contract([3u8; 32]),
        &[],
        None,
        &None,
        0,
    );

    let mut preimage = padded(13, &[6u8; 32]);
    preimage.extend(account_xdr([2u8; 32]));
    preimage.extend_from_slice(&[0, 0, 0, 18, 0, 0, 0, 1]);
    preimage.extend_from_slice(&[3u8; 32]);
    preimage.extend(padded(13, &[]));
    preimage.extend_from_slice(&1u32.to_be_bytes());
    preimage.extend_from_slice(&1u32.to_be_bytes());
    preimage.extend_from_slice(&5u32.to_be_bytes());
    preimage.extend_from_slice(&0u64.to_be_bytes());
    let expected = env.crypto().sha256(&Bytes::from_slice(&env, &preimage)).to_array();

    assert_eq!(uid, expected);
}

#[test]
fn the_same_claim_twice_gets_two_uids_and_bumps_the_nonce() {
    let mut f = setup();
    let schema_uid = register_schema(&mut f, true);
    assert_eq!(f.att.nonce(&f.issuer), 0);
    let a = attest(&mut f, schema_uid, data(), None).unwrap();
    let b = attest(&mut f, schema_uid, data(), None).unwrap();
    assert_ne!(a, b);
    assert_eq!(f.att.nonce(&f.issuer), 2);
    assert_eq!(f.att.schema_attestation_count(schema_uid), 2);
    assert_eq!(uids_of(&f.att.attestations_for_subject(&f.env, f.subject)), vec![a, b]);
    assert_eq!(
        a,
        derive_uid(&f.env, &schema_uid, &f.issuer, &f.subject, &data(), None, &None, 0)
    );
    assert_eq!(
        b,
        derive_uid(&f.env, &schema_uid, &f.issuer, &f.subject, &data(), None, &None, 1)
    );
}

#[test]
fn attestation_records_the_ledger_time() {
    let mut f = setup();
    f.env.ledger().with_mut(|l| l.timestamp = 1_234);
    let schema_uid = register_schema(&mut f, true);
    let uid = attest(&mut f, schema_uid, data(), Some(5_000)).unwrap();

    let a = f.att.get_attestation(uid).unwrap();
    assert_eq!(a.created_at, 1_234);
    assert_eq!(a.data, data());
    assert_eq!(a.expiration, Some(5_000));
    assert_eq!(a.ref_uid, None);
    assert_eq!(a.revocation_time, None);

    f.env.ledger().with_mut(|l| l.timestamp = 1_300);
    f.att.revoke(&f.env, &f.registry, f.issuer, uid).unwrap();
    assert_eq!(f.att.get_attestation(uid).unwrap().revocation_time, Some(1_300));
}

#[test]
fn expiration_is_exclusive() {
    let mut f = setup();
    let schema_uid = register_schema(&mut f, true);
    let uid = f
        .att
        .attest_at(&f.env, &f.registry, 10, f.issuer, schema_uid, f.subject, data(), Some(100), None)
        .unwrap();
    assert!(f.att.is_valid_at(99, uid));
    assert!(!f.att.is_valid_at(100, uid));
    assert!(!f.att.is_valid_at(101, uid));
}

#[test]
fn unknown_uid_is_not_valid() {
    let f = setup();
    assert!(!f.att.is_valid_at(0, [1u8; 32]));
    assert_eq!(f.att.get_attestation([1u8; 32]), None);
    assert_eq!(uids_of(&f.att.attestations_for_subject(&f.env, f.subject)), Vec::<Uid>::new());
    assert_eq!(f.att.schema_attestation_count([1u8; 32]), 0);
}

#[test]
fn unbound_registry_is_not_initialized() {
    let mut f = setup();
    let schema_uid = register_schema(&mut f, true);
    let mut unbound = AttestationContract::unbound();
    assert_eq!(unbound.registry(), Err(Error::NotInitialized));
    let res = unbound.attest(&f.env, &f.registry, f.issuer, schema_uid, f.subject, data(), None, None);
    assert_eq!(res, Err(Error::NotInitialized));
    assert_eq!(f.att.registry(), Ok(Address::contract([10u8; 32])));
}

#[test]
fn data_at_limit_is_accepted() {
    let mut f = setup();
    let schema_uid = register_schema(&mut f, true);
    let exact = vec![0u8; MAX_DATA_LEN as usize];
    assert!(attest(&mut f, schema_uid, exact, None).is_ok());
}

#[test]
fn failed_calls_record_nothing() {
    let mut f = setup();
    let schema_uid = register_schema(&mut f, true);
    let res = attest(&mut f, [7u8; 32], data(), None);
    assert_eq!(res, Err(Error::SchemaNotFound));
    assert_eq!(f.att.nonce(&f.issuer), 0);
    assert!(f.att.events().is_empty());

    let uid = attest(&mut f, schema_uid, data(), None).unwrap();
    let res = f.att.revoke(&f.env, &f.registry, Address::account([4u8; 32]), uid);
    assert_eq!(res, Err(Error::NotAuthorizedToRevoke));
    assert!(!f.att.get_attestation(uid).unwrap().revoked);
    assert_eq!(f.att.events().len(), 1);
}

#[test]
fn events_record_attest_and_revoke() {
    let mut f = setup();
    f.env.ledger().with_mut(|l| l.timestamp = 50);
    let schema_uid = register_schema(&mut f, true);
    let uid = attest(&mut f, schema_uid, data(), Some(90)).unwrap();
    f.att.revoke(&f.env, &f.registry, f.issuer, uid).unwrap();

    assert_eq!(
        f.att.events(),
        &vec![
            AttestationEvent::Attested(Attested {
                schema_uid,
                attestation_uid: uid,
                issuer: f.issuer,
                subject: f.subject,
                expiration: Some(90),
            }),
            AttestationEvent::Revoked(Revoked {
                schema_uid,
                attestation_uid: uid,
                issuer: f.issuer,
                subject: f.subject,
                revocation_time: 50,
            }),
        ]
    );
}

#[test]
fn lookup_reports_the_registry_answer() {
    let mut f = setup();
    let schema_uid = register_schema(&mut f, false);
    let found = f.att.lookup_schema(&f.registry, &schema_uid).unwrap().unwrap();
    assert_eq!(found.authority, f.authority);
    assert_eq!(found.name, String::from("merchant"));
    assert!(!found.revocable);
    assert_eq!(f.att.lookup_schema(&f.registry, &[0u8; 32]), Ok(None));
}

#[test]
fn attestation_error_codes_are_stable() {
    assert_eq!(Error::SchemaNotFound.code(), 1);
    assert_eq!(Error::AttestationNotFound.code(), 2);
    assert_eq!(Error::NotAuthorizedToRevoke.code(), 3);
    assert_eq!(Error::SchemaNotRevocable.code(), 4);
    assert_eq!(Error::AlreadyRevoked.code(), 5);
    assert_eq!(Error::DataTooLong.code(), 6);
    assert_eq!(Error::NotInitialized.code(), 7);
}

#[test]
fn revocation_survives_later_attests() {
    let mut f = setup();
    let schema_uid = register_schema(&mut f, true);
    let uid = attest(&mut f, schema_uid, data(), None).unwrap();
    f.att.revoke(&f.env, &f.registry, f.issuer, uid).unwrap();
    let other = attest(&mut f, schema_uid, data(), None).unwrap();
    assert_ne!(other, uid);
    assert!(f.att.get_attestation(uid).unwrap().revoked);
    assert!(!f.att.is_valid_at(0, uid));
    assert!(f.att.is_valid_at(0, other));
}

#[test]
fn subject_index_keeps_the_newest_in_order() {
    let mut f = setup();
    let schema_uid = register_schema(&mut f, true);
    let mut made: Vec<Uid> = Vec::new();
    for i in 0..(MAX_SUBJECT_INDEX + 2) {
        made.push(attest(&mut f, schema_uid, vec![i as u8, 7], None).unwrap());
    }
    let index = uids_of(&f.att.attestations_for_subject(&f.env, f.subject));
    assert_eq!(index, made[2..].to_vec());
    let other = Address::account([9u8; 32]);
    assert!(f.att.attestations_for_subject(&f.env, other).is_empty());
}

#[test]
fn a_repeated_claim_keeps_the_first_record() {
    let mut f = setup();
    f.env.ledger().with_mut(|l| l.timestamp = 10);
    let schema_uid = register_schema(&mut f, true);
    let first = attest(&mut f, schema_uid, data(), None).unwrap();
    let before = f.att.get_attestation(first).unwrap();
    f.env.ledger().with_mut(|l| l.timestamp = 20);
    let second = attest(&mut f, schema_uid, data(), None).unwrap();
    assert_ne!(first, second);
    assert_eq!(f.att.get_attestation(first).unwrap(), before);
    assert_eq!(f.att.get_attestation(second).unwrap().created_at, 20);
}

#[test]
fn counts_follow_successful_attests_only() {
    let mut f = setup();
    let schema_uid = register_schema(&mut f, true);
    let uid = attest(&mut f, schema_uid, data(), None).unwrap();
    assert_eq!(attest(&mut f, schema_uid, vec![0u8; (MAX_DATA_LEN + 1) as usize], None), Err(Error::DataTooLong));
    f.att.revoke(&f.env, &f.registry, f.issuer, uid).unwrap();
    attest(&mut f, schema_uid, vec![9], None).unwrap();
    assert_eq!(f.att.schema_attestation_count(schema_uid), 2);
    assert_eq!(f.att.schema_attestation_count([7u8; 32]), 0);
}

#[test]
fn an_expired_attestation_stays_invalid() {
    let mut f = setup();
    let schema_uid = register_schema(&mut f, true);
    let uid = f
        .att
        .attest_at(&f.env, &f.registry, 0, f.issuer, schema_uid, f.subject, data(), Some(5), None)
        .unwrap();
    assert!(!f.att.is_valid_at(5, uid));
    f.att
        .attest_at(&f.env, &f.registry, 6, f.issuer, schema_uid, f.subject, data(), Some(5), None)
        .unwrap();
    assert_eq!(f.att.revoke_at(&f.registry, 7, Address::account([4u8; 32]), uid), Err(Error::NotAuthorizedToRevoke));
    assert!(!f.att.is_valid_at(8, uid));
}
