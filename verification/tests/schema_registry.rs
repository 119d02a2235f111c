use astrolabe::schema_registry::{derive_uid, Error, SchemaRegistered, SchemaRegistry, MAX_DEFINITION_LEN};
use astrolabe::types::Address;
use soroban_sdk::{Bytes, Env};

fn setup() -> (Env, SchemaRegistry, Address) {
    let env = Env::default();
    let registry = SchemaRegistry::new(Address::contract([9u8; 32]));
    let authority = Address::account([1u8; 32]);
    (env, registry, authority)
}

#[test]
fn register_and_read_back() {
    let (env, mut client, authority) = setup();
    let name = String::from("merchant");
    let definition = b"string name,string country".to_vec();

    let uid = client
        .register_schema(&env, authority, name.clone(), definition.clone(), true, None)
        .unwrap();

    let schema = client.get_schema(uid).expect("schema should exist");
    assert_eq!(schema.authority, authority);
    assert_eq!(schema.name, name);
    assert_eq!(schema.definition, definition);
    assert!(schema.revocable);
    assert_eq!(schema.resolver, None);
}

#[test]
fn get_unknown_returns_none() {
    let (_env, client, _authority) = setup();
    let unknown = [9u8; 32];
    assert_eq!(client.get_schema(unknown), None);
}

#[test]
fn duplicate_rejected() {
    let (env, mut client, authority) = setup();
    let name = String::from("kyc");
    let definition = b"u32 tier".to_vec();

    client
        .register_schema(&env, authority, name.clone(), definition.clone(), true, None)
        .unwrap();

    let res = client.register_schema(&env, authority, name, definition, true, None);
    assert_eq!(res, Err(Error::SchemaAlreadyExists));
}

#[test]
fn same_name_different_authority_does_not_collide() {
    let (env, mut client, authority_a) = setup();
    let authority_b = Address::account([2u8; 32]);
    let name = String::from("badge");
    let definition = b"string label".to_vec();

    let uid_a = client
        .register_schema(&env, authority_a, name.clone(), definition.clone(), false, None)
        .unwrap();
    let uid_b = client
        .register_schema(&env, authority_b, name, definition, false, None)
        .unwrap();

    assert_ne!(uid_a, uid_b);
}

#[test]
fn oversized_definition_rejected() {
    let (env, mut client, authority) = setup();
    let name = String::from("big");
    let big = vec![b'a'; (MAX_DEFINITION_LEN + 1) as usize];

    let res = client.register_schema(&env, authority, name, big, true, None);
    assert_eq!(res, Err(Error::DefinitionTooLong));
}

#[test]
fn definition_at_limit_accepted() {
    let (env, mut client, authority) = setup();
    let name = String::from("atlimit");
    let exact = vec![b'a'; MAX_DEFINITION_LEN as usize];

    let uid = client
        .register_schema(&env, authority, name, exact, true, None)
        .unwrap();
    assert!(client.get_schema(uid).is_some());
}

fn padded(tag: u32, body: &[u8]) -> Vec<u8> {
    let mut out = Vec::new();
    out.extend_from_slice(&tag.to_be_bytes());
    out.extend_from_slice(&(body.len() as u32).to_be_bytes());
    out.extend_from_slice(body);
    while out.len() % 4 != 0 {
        out.push(0);
    }
    out
}

#[test]
fn schema_uid_is_sha256_of_the_field_xdr() {
    let env = Env::default();
    let authority = Address::account([7u8; 32]);
    let uid = derive_uid(&env, "merchant", b"string name", &authority);

    let mut preimage = padded(15, b"merchant");
    preimage.extend(padded(14, b"string name"));
    preimage.extend_from_slice(&[0, 0, 0, 18, 0, 0, 0, 0, 0, 0, 0, 0]);
    preimage.extend_from_slice(&[7u8; 32]);
    let expected = env.crypto().sha256(&Bytes::from_slice(&env, &preimage)).to_array();

    assert_eq!(uid, expected);
}

#[test]
fn contract_authority_is_serialised_as_a_contract_address() {
    let env = Env::default();
    let authority = Address::contract([5u8; 32]);
    let uid = derive_uid(&env, "a_b_9", b"", &authority);

    let mut preimage = padded(15, b"a_b_9");
    preimage.extend(padded(14, b""));
    preimage.extend_from_slice(&[0, 0, 0, 18, 0, 0, 0, 1]);
    preimage.extend_from_slice(&[5u8; 32]);
    let expected = env.crypto().sha256(&Bytes::from_slice(&env, &preimage)).to_array();

    assert_eq!(uid, expected);
}

#[test]
fn registration_is_recorded_as_an_event() {
    let (env, mut client, authority) = setup();
    let uid = client
        .register_schema(&env, authority, String::from("kyc"), b"u32 tier".to_vec(), true, None)
        .unwrap();
    let failed = client.register_schema(&env, authority, String::from("kyc"), b"u32 tier".to_vec(), true, None);
    assert_eq!(failed, Err(Error::SchemaAlreadyExists));

    assert_eq!(
        client.events(),
        &vec![SchemaRegistered {
            schema_uid: uid,
            authority,
            name: String::from("kyc"),
            revocable: true,
        }]
    );
}

#[test]
fn failed_registration_keeps_the_first_schema() {
    let (env, mut client, authority) = setup();
    let uid = client
        .register_schema(&env, authority, String::from("kyc"), b"u32 tier".to_vec(), false, None)
        .unwrap();
    let resolver = Some(Address::contract([4u8; 32]));
    let res = client.register_schema(&env, authority, String::from("kyc"), b"u32 tier".to_vec(), true, resolver);
    assert_eq!(res, Err(Error::SchemaAlreadyExists));

    let schema = client.get_schema(uid).unwrap();
    assert!(!schema.revocable);
    assert_eq!(schema.resolver, None);
}

#[test]
fn different_definitions_give_different_uids() {
    let (env, mut client, authority) = setup();
    let a = client
        .register_schema(&env, authority, String::from("kyc"), b"u32 tier".to_vec(), true, None)
        .unwrap();
    let b = client
        .register_schema(&env, authority, String::from("kyc"), b"u64 tier".to_vec(), true, None)
        .unwrap();
    assert_ne!(a, b);
}

#[test]
fn error_codes_are_stable() {
    assert_eq!(Error::SchemaAlreadyExists.code(), 1);
    assert_eq!(Error::DefinitionTooLong.code(), 2);
    assert_eq!(Error::SchemaNotFound.code(), 3);
}

#[test]
fn registry_keeps_its_address() {
    let (_env, client, _authority) = setup();
    assert_eq!(client.address(), Address::contract([9u8; 32]));
}
