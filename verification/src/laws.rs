//! Laws of the two registries, stated over their state models and proved.

use crate::attestation::{
    attestation_uid, capped_push, collision_free, record_preimage, record_uid, AttestationEvent, AttestationModel, AttestationState, Attested,
    Revoked,
    Error as AttestationError, MAX_DATA_LEN, MAX_SUBJECT_INDEX,
};
use crate::schema_registry::{
    schema_uid, Error as RegistryError, RegistryState, SchemaModel, SchemaRegisteredModel,
    MAX_DEFINITION_LEN,
};
use crate::host::{reads_ledger_time, sha256_digest};
use soroban_sdk::Env;
use crate::types::{uid_of, Address, Uid};
use crate::xdr::{attestation_preimage, lemma_attestation_preimage_injective, valid_symbol};
use vstd::prelude::*;

verus! {

/// A new schema registry satisfies its invariant.
pub proof fn law_initial_registry_keeps_invariant(address: Address)
    ensures
        RegistryState::initial(address).inv(),
{
}

/// Registering keeps the registry invariant: every schema stays under the uid
/// derived from its own content.
pub proof fn law_register_keeps_invariant(
    s: RegistryState,
    authority: Address,
    name: Seq<char>,
    definition: Seq<u8>,
    revocable: bool,
    resolver: Option<Address>,
)
    requires
        s.inv(),
        valid_symbol(name),
    ensures
        s.register(authority, name, definition, revocable, resolver).0.inv(),
{
    let t = s.register(authority, name, definition, revocable, resolver).0;
    assert forall|u: Uid| #[trigger] t.schemas.contains_key(u) implies {
        let x = t.schemas[u];
        &&& valid_symbol(x.name)
        &&& x.definition.len() <= MAX_DEFINITION_LEN
        &&& u == schema_uid(x.name, x.definition, x.authority)
    } by {
        if s.schemas.contains_key(u) && t.schemas[u] == s.schemas[u] {
        }
    }
}

/// A successful registration stores exactly the given schema under the uid
/// derived from its name, definition and authority, and records one event.
pub proof fn law_registered_schema_reads_back(
    s: RegistryState,
    authority: Address,
    name: Seq<char>,
    definition: Seq<u8>,
    revocable: bool,
    resolver: Option<Address>,
)
    requires
        s.register(authority, name, definition, revocable, resolver).1 is Ok,
    ensures
        ({
            let (t, r) = s.register(authority, name, definition, revocable, resolver);
            let uid = r->Ok_0;
            &&& uid == schema_uid(name, definition, authority)
            &&& t.schemas.contains_key(uid)
            &&& t.schemas[uid] == (SchemaModel { authority, name, definition, revocable, resolver })
            &&& t.events == s.events.push(
                SchemaRegisteredModel { schema_uid: uid, authority, name, revocable },
            )
        }),
{
}

/// A registered schema never changes: no registration, successful or not,
/// removes or alters a schema already stored.
pub proof fn law_schemas_are_immutable(
    s: RegistryState,
    uid: Uid,
    authority: Address,
    name: Seq<char>,
    definition: Seq<u8>,
    revocable: bool,
    resolver: Option<Address>,
)
    requires
        s.schemas.contains_key(uid),
    ensures
        s.register(authority, name, definition, revocable, resolver).0.schemas.contains_key(uid),
        s.register(authority, name, definition, revocable, resolver).0.schemas[uid]
            == s.schemas[uid],
{
}

/// Registering the same name, definition and authority a second time fails
/// with `SchemaAlreadyExists` and changes nothing.
pub proof fn law_duplicate_registration_is_rejected(
    s: RegistryState,
    authority: Address,
    name: Seq<char>,
    definition: Seq<u8>,
    revocable: bool,
    resolver: Option<Address>,
    revocable2: bool,
    resolver2: Option<Address>,
)
    requires
        s.register(authority, name, definition, revocable, resolver).1 is Ok,
    ensures
        ({
            let t = s.register(authority, name, definition, revocable, resolver).0;
            t.register(authority, name, definition, revocable2, resolver2) == (
                t,
                Err::<Uid, RegistryError>(RegistryError::SchemaAlreadyExists),
            )
        }),
{
}

/// A registration that fails leaves the registry unchanged.
pub proof fn law_failed_registration_changes_nothing(
    s: RegistryState,
    authority: Address,
    name: Seq<char>,
    definition: Seq<u8>,
    revocable: bool,
    resolver: Option<Address>,
)
    requires
        s.register(authority, name, definition, revocable, resolver).1 is Err,
    ensures
        s.register(authority, name, definition, revocable, resolver).0 == s,
{
}

/// A definition longer than the limit is refused with `DefinitionTooLong`;
/// one within the limit is accepted unless its uid is already registered.
pub proof fn law_definition_limit(
    s: RegistryState,
    authority: Address,
    name: Seq<char>,
    definition: Seq<u8>,
    revocable: bool,
    resolver: Option<Address>,
)
    ensures
        definition.len() > MAX_DEFINITION_LEN ==> s.register(
            authority,
            name,
            definition,
            revocable,
            resolver,
        ).1 == Err::<Uid, RegistryError>(RegistryError::DefinitionTooLong),
        definition.len() <= MAX_DEFINITION_LEN && !s.schemas.contains_key(
            schema_uid(name, definition, authority),
        ) ==> s.register(authority, name, definition, revocable, resolver).1 is Ok,
{
}

/// The newest `MAX_SUBJECT_INDEX` uids: the pushed uid is last, the index
/// stays within the cap when it was, and every uid in it is the pushed one or
/// was in the index before.
pub proof fn lemma_capped_push(index: Seq<Uid>, uid: Uid)
    ensures
        capped_push(index, uid).len() > 0,
        capped_push(index, uid).last() == uid,
        index.len() < MAX_SUBJECT_INDEX ==> capped_push(index, uid) == index.push(uid),
        index.len() <= MAX_SUBJECT_INDEX ==> capped_push(index, uid).len() <= MAX_SUBJECT_INDEX,
        forall|i: int|
            0 <= i < capped_push(index, uid).len() - 1 ==> index.contains(
                #[trigger] capped_push(index, uid)[i],
            ),
{
    let full = index.push(uid);
    let c = capped_push(index, uid);
    assert forall|i: int| 0 <= i < c.len() - 1 implies index.contains(#[trigger] c[i]) by {
        let k = full.len() - c.len() + i;
        assert(c[i] == full[k]);
        assert(index[k] == full[k]);
    }
}

/// A new attestation registry satisfies its invariant, and every nonce,
/// count and subject index starts empty.
pub proof fn law_initial_attestation_state_keeps_invariant(
    registry: Option<Address>,
    issuer: Address,
    schema_uid: Uid,
    subject: Address,
)
    ensures
        AttestationState::initial(registry).inv(),
        AttestationState::initial(registry).nonce_of(issuer) == 0,
        AttestationState::initial(registry).count_of(schema_uid) == 0,
        AttestationState::initial(registry).index_of(subject) == Seq::<Uid>::empty(),
{
}

/// Attesting keeps the attestation registry invariant.
pub proof fn law_attest_keeps_invariant(
    s: AttestationState,
    schemas: Map<Uid, SchemaModel>,
    now: u64,
    issuer: Address,
    schema_uid: Uid,
    subject: Address,
    data: Seq<u8>,
    expiration: Option<u64>,
    ref_uid: Option<Uid>,
)
    requires
        s.inv(),
        s.attest_fits(schemas, issuer, schema_uid, data),
    ensures
        s.attest(schemas, now, issuer, schema_uid, subject, data, expiration, ref_uid).0.inv(),
{
    let (t, r) = s.attest(schemas, now, issuer, schema_uid, subject, data, expiration, ref_uid);
    if r is Ok {
        let uid = r->Ok_0;
        lemma_capped_push(s.index_of(subject), uid);
        assert forall|a: Address, i: int|
            #![trigger t.subjects[a][i]]
            t.subjects.contains_key(a) && 0 <= i < t.subjects[a].len()
                implies t.attestations.contains_key(t.subjects[a][i]) by {
            if a != subject {
                assert(s.attestations.contains_key(s.subjects[a][i]));
            } else if i < t.subjects[a].len() - 1 {
                let old_index = s.index_of(subject);
                let j = choose|j: int| 0 <= j < old_index.len() && old_index[j] == t.subjects[a][i];
                assert(s.subjects.contains_key(subject));
                assert(s.attestations.contains_key(s.subjects[subject][j]));
            }
        }
        assert forall|a: Address| #[trigger] t.subjects.contains_key(a) implies t.subjects[a].len()
            <= MAX_SUBJECT_INDEX by {
            if a != subject {
            } else if s.subjects.contains_key(subject) {
            }
        }
        let n = s.nonce_of(issuer);
        assert forall|u: Uid| #[trigger] t.attestations.contains_key(u) implies {
            &&& t.attestations[u].revoked == (t.attestations[u].revocation_time is Some)
            &&& t.attestations[u].data.len() <= MAX_DATA_LEN
            &&& exists|k: u64|
                k < t.nonce_of(t.attestations[u].issuer) && u == #[trigger] record_uid(
                    t.attestations[u],
                    k,
                )
        } by {
            if u == uid {
                assert(record_uid(t.attestations[u], n) == uid);
                assert(n < t.nonce_of(issuer));
            } else {
                let rec = s.attestations[u];
                let k = choose|k: u64| k < s.nonce_of(rec.issuer) && u == #[trigger] record_uid(rec, k);
                assert(t.attestations[u] == rec);
                assert(s.nonce_of(rec.issuer) <= t.nonce_of(rec.issuer));
                assert(k < t.nonce_of(rec.issuer) && u == record_uid(t.attestations[u], k));
            }
        }
    }
}

/// Revoking keeps the attestation registry invariant.
pub proof fn law_revoke_keeps_invariant(
    s: AttestationState,
    schemas: Map<Uid, SchemaModel>,
    now: u64,
    issuer: Address,
    uid: Uid,
)
    requires
        s.inv(),
    ensures
        s.revoke(schemas, now, issuer, uid).0.inv(),
{
    let t = s.revoke(schemas, now, issuer, uid).0;
    assert forall|u: Uid| #[trigger] t.attestations.contains_key(u) implies {
        &&& t.attestations[u].revoked == (t.attestations[u].revocation_time is Some)
        &&& t.attestations[u].data.len() <= MAX_DATA_LEN
        &&& exists|k: u64|
            k < t.nonce_of(t.attestations[u].issuer) && u == #[trigger] record_uid(
                t.attestations[u],
                k,
            )
    } by {
        let rec = s.attestations[u];
        let k = choose|k: u64| k < s.nonce_of(rec.issuer) && u == #[trigger] record_uid(rec, k);
        assert(record_preimage(t.attestations[u], k) == record_preimage(rec, k));
        assert(k < t.nonce_of(t.attestations[u].issuer) && u == record_uid(t.attestations[u], k));
    }
    assert forall|a: Address, i: int|
        #![trigger t.subjects[a][i]]
        t.subjects.contains_key(a) && 0 <= i < t.subjects[a].len()
            implies t.attestations.contains_key(t.subjects[a][i]) by {
        assert(s.attestations.contains_key(s.subjects[a][i]));
    }
}

/// The preimage of a new attest differs from the preimage of every stored
/// record: the issuer's nonce has moved past every nonce its records used.
pub proof fn law_next_preimage_is_fresh(
    s: AttestationState,
    issuer: Address,
    schema_uid: Uid,
    subject: Address,
    data: Seq<u8>,
    expiration: Option<u64>,
    ref_uid: Option<Uid>,
)
    requires
        s.inv(),
        data.len() <= MAX_DATA_LEN,
    ensures
        !s.stored_preimages().contains(
            s.next_preimage(issuer, schema_uid, subject, data, expiration, ref_uid),
        ),
{
    let p = s.next_preimage(issuer, schema_uid, subject, data, expiration, ref_uid);
    if s.stored_preimages().contains(p) {
        let (u, k) = choose|u: Uid, k: u64|
            s.attestations.contains_key(u) && k < s.nonce_of(s.attestations[u].issuer) && p
                == #[trigger] record_preimage(s.attestations[u], k);
        let rec = s.attestations[u];
        assert(rec.data.len() <= MAX_DATA_LEN);
        lemma_attestation_preimage_injective(
            schema_uid,
            issuer,
            subject,
            data,
            expiration,
            ref_uid,
            s.nonce_of(issuer),
            rec.schema_uid,
            rec.issuer,
            rec.subject,
            rec.data,
            rec.expiration,
            rec.ref_uid,
            k,
        );
    }
}

/// No attest overwrites a stored attestation: given that SHA-256 separates
/// the new preimage from the stored ones, the new uid is not yet stored, and
/// every stored record is kept as it was.
pub proof fn law_attest_never_overwrites(
    s: AttestationState,
    schemas: Map<Uid, SchemaModel>,
    now: u64,
    issuer: Address,
    schema_uid: Uid,
    subject: Address,
    data: Seq<u8>,
    expiration: Option<u64>,
    ref_uid: Option<Uid>,
)
    requires
        s.inv(),
        collision_free(
            s.stored_preimages().insert(
                s.next_preimage(issuer, schema_uid, subject, data, expiration, ref_uid),
            ),
        ),
    ensures
        ({
            let (t, r) = s.attest(
                schemas,
                now,
                issuer,
                schema_uid,
                subject,
                data,
                expiration,
                ref_uid,
            );
            &&& r matches Ok(uid) ==> !s.attestations.contains_key(uid)
            &&& forall|u: Uid| #[trigger]
                s.attestations.contains_key(u) ==> t.attestations.contains_key(u)
                    && t.attestations[u] == s.attestations[u]
        }),
{
    let (t, r) = s.attest(schemas, now, issuer, schema_uid, subject, data, expiration, ref_uid);
    if r is Ok {
        let uid = r->Ok_0;
        let p = s.next_preimage(issuer, schema_uid, subject, data, expiration, ref_uid);
        if s.attestations.contains_key(uid) {
            let rec = s.attestations[uid];
            let k = choose|k: u64| k < s.nonce_of(rec.issuer) && uid == #[trigger] record_uid(rec, k);
            let q = record_preimage(rec, k);
            assert(s.stored_preimages().contains(q));
            law_next_preimage_is_fresh(s, issuer, schema_uid, subject, data, expiration, ref_uid);
            let inputs = s.stored_preimages().insert(p);
            assert(inputs.contains(p) && inputs.contains(q));
            assert(uid_of(sha256_digest(p)) == uid);
            assert(uid_of(sha256_digest(q)) == uid);
        }
    }
}

/// A successful attest stores the claim as given, unrevoked, dated `now`,
/// under the uid derived from the claim and the issuer's nonce, and records
/// one `Attested` event.
pub proof fn law_attestation_reads_back(
    s: AttestationState,
    schemas: Map<Uid, SchemaModel>,
    now: u64,
    issuer: Address,
    schema_uid: Uid,
    subject: Address,
    data: Seq<u8>,
    expiration: Option<u64>,
    ref_uid: Option<Uid>,
)
    requires
        s.attest(schemas, now, issuer, schema_uid, subject, data, expiration, ref_uid).1 is Ok,
    ensures
        ({
            let (t, r) = s.attest(
                schemas,
                now,
                issuer,
                schema_uid,
                subject,
                data,
                expiration,
                ref_uid,
            );
            let uid = r->Ok_0;
            &&& uid == attestation_uid(
                schema_uid,
                issuer,
                subject,
                data,
                expiration,
                ref_uid,
                s.nonce_of(issuer),
            )
            &&& t.attestations.contains_key(uid)
            &&& t.attestations[uid] == (AttestationModel {
                schema_uid,
                issuer,
                subject,
                data,
                expiration,
                ref_uid,
                revoked: false,
                revocation_time: None,
                created_at: now,
            })
            &&& t.events == s.events.push(
                AttestationEvent::Attested(
                    Attested { schema_uid, attestation_uid: uid, issuer, subject, expiration },
                ),
            )
        }),
{
}

/// A freshly made attestation is valid until it expires: at every time
/// strictly before its expiration, or at every time if it has none.
pub proof fn law_new_attestation_is_valid_until_expiry(
    s: AttestationState,
    schemas: Map<Uid, SchemaModel>,
    now: u64,
    issuer: Address,
    schema_uid: Uid,
    subject: Address,
    data: Seq<u8>,
    expiration: Option<u64>,
    ref_uid: Option<Uid>,
    later: u64,
)
    requires
        s.attest(schemas, now, issuer, schema_uid, subject, data, expiration, ref_uid).1 is Ok,
    ensures
        ({
            let (t, r) = s.attest(
                schemas,
                now,
                issuer,
                schema_uid,
                subject,
                data,
                expiration,
                ref_uid,
            );
            t.valid_at(r->Ok_0, later) == match expiration {
                None => true,
                Some(exp) => exp > later,
            }
        }),
{
}

/// Each successful attest increments the issuer's nonce and the schema's
/// count by one and leaves every other issuer's nonce and every other
/// schema's count alone.
pub proof fn law_attest_counts(
    s: AttestationState,
    schemas: Map<Uid, SchemaModel>,
    now: u64,
    issuer: Address,
    schema_uid: Uid,
    subject: Address,
    data: Seq<u8>,
    expiration: Option<u64>,
    ref_uid: Option<Uid>,
    other_issuer: Address,
    other_schema: Uid,
)
    requires
        s.attest(schemas, now, issuer, schema_uid, subject, data, expiration, ref_uid).1 is Ok,
        s.nonce_of(issuer) < u64::MAX,
        s.count_of(schema_uid) < u64::MAX,
    ensures
        ({
            let t = s.attest(
                schemas,
                now,
                issuer,
                schema_uid,
                subject,
                data,
                expiration,
                ref_uid,
            ).0;
            &&& t.nonce_of(issuer) == s.nonce_of(issuer) + 1
            &&& t.count_of(schema_uid) == s.count_of(schema_uid) + 1
            &&& other_issuer != issuer ==> t.nonce_of(other_issuer) == s.nonce_of(other_issuer)
            &&& other_schema != schema_uid ==> t.count_of(other_schema) == s.count_of(
                other_schema,
            )
        }),
{
}

/// After a successful attest the subject's index ends with the new uid and
/// holds at most `MAX_SUBJECT_INDEX` uids: the newest ones, the oldest being
/// evicted first. Other subjects' indexes are untouched.
pub proof fn law_subject_index_is_capped(
    s: AttestationState,
    schemas: Map<Uid, SchemaModel>,
    now: u64,
    issuer: Address,
    schema_uid: Uid,
    subject: Address,
    data: Seq<u8>,
    expiration: Option<u64>,
    ref_uid: Option<Uid>,
    other_subject: Address,
)
    requires
        s.inv(),
        s.attest(schemas, now, issuer, schema_uid, subject, data, expiration, ref_uid).1 is Ok,
    ensures
        ({
            let (t, r) = s.attest(
                schemas,
                now,
                issuer,
                schema_uid,
                subject,
                data,
                expiration,
                ref_uid,
            );
            let before = s.index_of(subject);
            let after = t.index_of(subject);
            &&& after.last() == r->Ok_0
            &&& after.len() <= MAX_SUBJECT_INDEX
            &&& before.len() < MAX_SUBJECT_INDEX ==> after == before.push(r->Ok_0)
            &&& before.len() == MAX_SUBJECT_INDEX ==> after == before.drop_first().push(r->Ok_0)
            &&& other_subject != subject ==> t.index_of(other_subject) == s.index_of(
                other_subject,
            )
        }),
{
    let uid = s.attest(schemas, now, issuer, schema_uid, subject, data, expiration, ref_uid).1->Ok_0;
    let before = s.index_of(subject);
    lemma_capped_push(before, uid);
    if before.len() == MAX_SUBJECT_INDEX {
        assert(capped_push(before, uid) =~= before.drop_first().push(uid));
    }
    if s.subjects.contains_key(subject) {
    }
}

/// Attestation records are never deleted: every attest and every revoke
/// keeps every stored uid, even one evicted from its subject's index.
pub proof fn law_records_are_never_deleted(
    s: AttestationState,
    schemas: Map<Uid, SchemaModel>,
    now: u64,
    issuer: Address,
    schema_uid: Uid,
    subject: Address,
    data: Seq<u8>,
    expiration: Option<u64>,
    ref_uid: Option<Uid>,
    revoked_uid: Uid,
    kept: Uid,
)
    requires
        s.attestations.contains_key(kept),
    ensures
        s.attest(schemas, now, issuer, schema_uid, subject, data, expiration, ref_uid).0.attestations.contains_key(kept),
        s.revoke(schemas, now, issuer, revoked_uid).0.attestations.contains_key(kept),
{
}

/// A failed attest or revoke leaves the registry unchanged.
pub proof fn law_failed_calls_change_nothing(
    s: AttestationState,
    schemas: Map<Uid, SchemaModel>,
    now: u64,
    issuer: Address,
    schema_uid: Uid,
    subject: Address,
    data: Seq<u8>,
    expiration: Option<u64>,
    ref_uid: Option<Uid>,
    revoked_uid: Uid,
)
    ensures
        s.attest(schemas, now, issuer, schema_uid, subject, data, expiration, ref_uid).1 is Err
            ==> s.attest(schemas, now, issuer, schema_uid, subject, data, expiration, ref_uid).0
            == s,
        s.revoke(schemas, now, issuer, revoked_uid).1 is Err ==> s.revoke(
            schemas,
            now,
            issuer,
            revoked_uid,
        ).0 == s,
{
}

/// Data longer than the limit is refused with `DataTooLong` before anything
/// else is looked at; an attest succeeds only with a bound registry that
/// holds the schema.
pub proof fn law_attest_preconditions(
    s: AttestationState,
    schemas: Map<Uid, SchemaModel>,
    now: u64,
    issuer: Address,
    schema_uid: Uid,
    subject: Address,
    data: Seq<u8>,
    expiration: Option<u64>,
    ref_uid: Option<Uid>,
)
    ensures
        data.len() > MAX_DATA_LEN ==> s.attest(
            schemas,
            now,
            issuer,
            schema_uid,
            subject,
            data,
            expiration,
            ref_uid,
        ).1 == Err::<Uid, AttestationError>(AttestationError::DataTooLong),
        s.attest(schemas, now, issuer, schema_uid, subject, data, expiration, ref_uid).1 is Ok
            <==> (data.len() <= MAX_DATA_LEN && s.registry is Some && schemas.contains_key(
            schema_uid,
        )),
        data.len() <= MAX_DATA_LEN && s.registry is Some && !schemas.contains_key(schema_uid)
            ==> s.attest(schemas, now, issuer, schema_uid, subject, data, expiration, ref_uid).1
            == Err::<Uid, AttestationError>(AttestationError::SchemaNotFound),
{
}

/// Revocation refuses an unknown uid, an attestation already revoked, and
/// an attestation whose schema is not revocable; it succeeds exactly when
/// none of these holds, the caller is the issuer and the bound registry
/// holds the schema.
pub proof fn law_revoke_outcomes(
    s: AttestationState,
    schemas: Map<Uid, SchemaModel>,
    now: u64,
    caller: Address,
    uid: Uid,
)
    ensures
        !s.attestations.contains_key(uid) ==> s.revoke(schemas, now, caller, uid).1 == Err::<
            (),
            AttestationError,
        >(AttestationError::AttestationNotFound),
        s.attestations.contains_key(uid) && s.attestations[uid].issuer == caller
            && s.attestations[uid].revoked ==> s.revoke(schemas, now, caller, uid).1 == Err::<
            (),
            AttestationError,
        >(AttestationError::AlreadyRevoked),
        s.attestations.contains_key(uid) && s.attestations[uid].issuer == caller
            && !s.attestations[uid].revoked && s.registry is Some && schemas.contains_key(
            s.attestations[uid].schema_uid,
        ) && !schemas[s.attestations[uid].schema_uid].revocable ==> s.revoke(
            schemas,
            now,
            caller,
            uid,
        ).1 == Err::<(), AttestationError>(AttestationError::SchemaNotRevocable),
        s.revoke(schemas, now, caller, uid).1 is Ok <==> (s.attestations.contains_key(uid)
            && s.attestations[uid].issuer == caller && !s.attestations[uid].revoked
            && s.registry is Some && schemas.contains_key(s.attestations[uid].schema_uid)
            && schemas[s.attestations[uid].schema_uid].revocable),
{
}

/// Only the issuer of an attestation can revoke it: anyone else is refused
/// with `NotAuthorizedToRevoke`, and a successful revoke was asked by the
/// stored issuer.
pub proof fn law_only_the_issuer_revokes(
    s: AttestationState,
    schemas: Map<Uid, SchemaModel>,
    now: u64,
    caller: Address,
    uid: Uid,
)
    requires
        s.attestations.contains_key(uid),
    ensures
        caller != s.attestations[uid].issuer ==> s.revoke(schemas, now, caller, uid).1 == Err::<
            (),
            AttestationError,
        >(AttestationError::NotAuthorizedToRevoke),
        s.revoke(schemas, now, caller, uid).1 is Ok ==> caller == s.attestations[uid].issuer,
{
}

/// A revoked attestation is invalid at every time, records its revocation
/// time, and keeps every other field.
pub proof fn law_revoked_is_invalid(
    s: AttestationState,
    schemas: Map<Uid, SchemaModel>,
    now: u64,
    issuer: Address,
    uid: Uid,
    at: u64,
)
    requires
        s.revoke(schemas, now, issuer, uid).1 is Ok,
    ensures
        ({
            let t = s.revoke(schemas, now, issuer, uid).0;
            &&& !t.valid_at(uid, at)
            &&& t.attestations[uid].revoked
            &&& t.attestations[uid].revocation_time == Some(now)
            &&& t.attestations[uid] == (AttestationModel {
                revoked: true,
                revocation_time: Some(now),
                ..s.attestations[uid]
            })
            &&& t.events == s.events.push(
                AttestationEvent::Revoked(
                    Revoked {
                        schema_uid: s.attestations[uid].schema_uid,
                        attestation_uid: uid,
                        issuer,
                        subject: s.attestations[uid].subject,
                        revocation_time: now,
                    },
                ),
            )
        }),
{
}

/// `is_valid` measures the expiration against the ledger clock: whenever its
/// answer is validity at a time that the clock reported, an unknown or
/// revoked attestation is invalid, one without expiration is valid, and one
/// with an expiration is valid exactly when the expiration is later than
/// that reading.
pub proof fn law_is_valid_compares_expiry_with_the_clock(
    env: &Env,
    s: AttestationState,
    uid: Uid,
    r: bool,
)
    requires
        exists|now: u64| reads_ledger_time(env, now) && r == #[trigger] s.valid_at(uid, now),
    ensures
        !s.attestations.contains_key(uid) ==> !r,
        s.attestations.contains_key(uid) && s.attestations[uid].revoked ==> !r,
        s.attestations.contains_key(uid) && !s.attestations[uid].revoked
            && s.attestations[uid].expiration is None ==> r,
        s.attestations.contains_key(uid) && !s.attestations[uid].revoked
            && s.attestations[uid].expiration is Some ==> exists|now: u64|
            #[trigger] reads_ledger_time(env, now) && (r <==> s.attestations[uid].expiration->0
                > now),
{
    let now = choose|now: u64| reads_ledger_time(env, now) && r == #[trigger] s.valid_at(uid, now);
    assert(reads_ledger_time(env, now));
}

/// An attest dates its record by the ledger clock: whenever its outcome is
/// the step taken at a time that the clock reported, a successful attest
/// stores the claim as given, unrevoked, created at that reading.
pub proof fn law_attest_is_dated_by_the_clock(
    env: &Env,
    s: AttestationState,
    schemas: Map<Uid, SchemaModel>,
    issuer: Address,
    schema_uid: Uid,
    subject: Address,
    data: Seq<u8>,
    expiration: Option<u64>,
    ref_uid: Option<Uid>,
    t: AttestationState,
    r: Result<Uid, AttestationError>,
)
    requires
        exists|now: u64|
            {
                let step = #[trigger] s.attest(
                    schemas,
                    now,
                    issuer,
                    schema_uid,
                    subject,
                    data,
                    expiration,
                    ref_uid,
                );
                reads_ledger_time(env, now) && t == step.0 && r == step.1
            },
        r is Ok,
    ensures
        exists|now: u64|
            #[trigger] reads_ledger_time(env, now) && t.attestations.contains_key(r->Ok_0)
                && t.attestations[r->Ok_0] == (AttestationModel {
                schema_uid,
                issuer,
                subject,
                data,
                expiration,
                ref_uid,
                revoked: false,
                revocation_time: None,
                created_at: now,
            }),
{
    let now = choose|now: u64|
        {
            let step = #[trigger] s.attest(
                schemas,
                now,
                issuer,
                schema_uid,
                subject,
                data,
                expiration,
                ref_uid,
            );
            reads_ledger_time(env, now) && t == step.0 && r == step.1
        };
    law_attestation_reads_back(s, schemas, now, issuer, schema_uid, subject, data, expiration, ref_uid);
    assert(reads_ledger_time(env, now));
}

/// A revoke dates the revocation by the ledger clock: whenever its outcome
/// is the step taken at a time that the clock reported, a successful revoke
/// marks the record revoked with that reading as its revocation time, and
/// its `Revoked` event carries the same reading.
pub proof fn law_revoke_is_dated_by_the_clock(
    env: &Env,
    s: AttestationState,
    schemas: Map<Uid, SchemaModel>,
    issuer: Address,
    uid: Uid,
    t: AttestationState,
    r: Result<(), AttestationError>,
)
    requires
        exists|now: u64|
            {
                let step = #[trigger] s.revoke(schemas, now, issuer, uid);
                reads_ledger_time(env, now) && t == step.0 && r == step.1
            },
        r is Ok,
    ensures
        exists|now: u64|
            #[trigger] reads_ledger_time(env, now) && t.attestations[uid].revoked
                && t.attestations[uid].revocation_time == Some(now) && t.events == s.events.push(
                AttestationEvent::Revoked(
                    Revoked {
                        schema_uid: s.attestations[uid].schema_uid,
                        attestation_uid: uid,
                        issuer,
                        subject: s.attestations[uid].subject,
                        revocation_time: now,
                    },
                ),
            ),
{
    let now = choose|now: u64|
        {
            let step = #[trigger] s.revoke(schemas, now, issuer, uid);
            reads_ledger_time(env, now) && t == step.0 && r == step.1
        };
    law_revoked_is_invalid(s, schemas, now, issuer, uid, now);
    assert(reads_ledger_time(env, now));
}

/// Revocation is permanent: a revoked attestation stays revoked through
/// every revoke, and, given that SHA-256 separates the new preimage from
/// the stored ones, through every attest.
pub proof fn law_revocation_is_permanent(
    s: AttestationState,
    schemas: Map<Uid, SchemaModel>,
    now: u64,
    issuer: Address,
    schema_uid: Uid,
    subject: Address,
    data: Seq<u8>,
    expiration: Option<u64>,
    ref_uid: Option<Uid>,
    revoked_uid: Uid,
    uid: Uid,
)
    requires
        s.inv(),
        s.attestations.contains_key(uid),
        s.attestations[uid].revoked,
        collision_free(
            s.stored_preimages().insert(
                s.next_preimage(issuer, schema_uid, subject, data, expiration, ref_uid),
            ),
        ),
    ensures
        s.revoke(schemas, now, issuer, revoked_uid).0.attestations[uid].revoked,
        s.attest(schemas, now, issuer, schema_uid, subject, data, expiration, ref_uid).0.attestations[uid].revoked,
{
    law_attest_never_overwrites(s, schemas, now, issuer, schema_uid, subject, data, expiration, ref_uid);
}

/// A revoke changes at most the record it names, and that one only on
/// success, where it gains its revocation and keeps every other field; it
/// deletes nothing.
pub proof fn law_revoke_changes_only_its_record(
    s: AttestationState,
    schemas: Map<Uid, SchemaModel>,
    now: u64,
    caller: Address,
    uid: Uid,
    other: Uid,
)
    requires
        s.attestations.contains_key(other),
    ensures
        ({
            let (t, r) = s.revoke(schemas, now, caller, uid);
            &&& t.attestations.contains_key(other)
            &&& other != uid ==> t.attestations[other] == s.attestations[other]
            &&& t.attestations[other] != s.attestations[other] ==> (r is Ok && other == uid
                && t.attestations[other] == (AttestationModel {
                revoked: true,
                revocation_time: Some(now),
                ..s.attestations[other]
            }))
        }),
{
}

/// An attestation that is invalid at some time stays invalid at every later
/// time, through any revoke and, given that SHA-256 separates the new
/// preimage from the stored ones, through any attest.
pub proof fn law_invalid_stays_invalid(
    s: AttestationState,
    schemas: Map<Uid, SchemaModel>,
    now: u64,
    issuer: Address,
    schema_uid: Uid,
    subject: Address,
    data: Seq<u8>,
    expiration: Option<u64>,
    ref_uid: Option<Uid>,
    caller: Address,
    revoked_uid: Uid,
    uid: Uid,
    at: u64,
    later: u64,
)
    requires
        s.inv(),
        s.attestations.contains_key(uid),
        !s.valid_at(uid, at),
        at <= later,
        collision_free(
            s.stored_preimages().insert(
                s.next_preimage(issuer, schema_uid, subject, data, expiration, ref_uid),
            ),
        ),
    ensures
        !s.attest(schemas, now, issuer, schema_uid, subject, data, expiration, ref_uid).0.valid_at(
            uid,
            later,
        ),
        !s.revoke(schemas, now, caller, revoked_uid).0.valid_at(uid, later),
{
    law_attest_never_overwrites(s, schemas, now, issuer, schema_uid, subject, data, expiration, ref_uid);
}

/// The same claim made twice by the same issuer gives two records: the
/// second attest succeeds too, and, given that SHA-256 separates its
/// preimage from the stored ones, its uid differs from the first and the
/// first record is kept as it was.
pub proof fn law_repeated_claims_are_distinct_records(
    s: AttestationState,
    schemas: Map<Uid, SchemaModel>,
    now1: u64,
    now2: u64,
    issuer: Address,
    schema_uid: Uid,
    subject: Address,
    data: Seq<u8>,
    expiration: Option<u64>,
    ref_uid: Option<Uid>,
)
    requires
        s.inv(),
        s.attest_fits(schemas, issuer, schema_uid, data),
        s.attest(schemas, now1, issuer, schema_uid, subject, data, expiration, ref_uid).1 is Ok,
        collision_free(
            s.attest(
                schemas,
                now1,
                issuer,
                schema_uid,
                subject,
                data,
                expiration,
                ref_uid,
            ).0.stored_preimages().insert(
                s.attest(
                    schemas,
                    now1,
                    issuer,
                    schema_uid,
                    subject,
                    data,
                    expiration,
                    ref_uid,
                ).0.next_preimage(issuer, schema_uid, subject, data, expiration, ref_uid),
            ),
        ),
    ensures
        ({
            let (t, r1) = s.attest(
                schemas,
                now1,
                issuer,
                schema_uid,
                subject,
                data,
                expiration,
                ref_uid,
            );
            let (t2, r2) = t.attest(
                schemas,
                now2,
                issuer,
                schema_uid,
                subject,
                data,
                expiration,
                ref_uid,
            );
            &&& r2 is Ok
            &&& r2->Ok_0 != r1->Ok_0
            &&& t2.attestations.contains_key(r1->Ok_0)
            &&& t2.attestations.contains_key(r2->Ok_0)
            &&& t2.attestations[r1->Ok_0] == t.attestations[r1->Ok_0]
        }),
{
    let t = s.attest(schemas, now1, issuer, schema_uid, subject, data, expiration, ref_uid).0;
    law_attest_keeps_invariant(s, schemas, now1, issuer, schema_uid, subject, data, expiration, ref_uid);
    law_attest_never_overwrites(t, schemas, now2, issuer, schema_uid, subject, data, expiration, ref_uid);
}

/// No subject index lists a uid twice: every attest keeps that, given that
/// SHA-256 separates the new preimage from the stored ones, and every revoke
/// keeps it.
pub proof fn law_indexes_stay_distinct(
    s: AttestationState,
    schemas: Map<Uid, SchemaModel>,
    now: u64,
    issuer: Address,
    schema_uid: Uid,
    subject: Address,
    data: Seq<u8>,
    expiration: Option<u64>,
    ref_uid: Option<Uid>,
    caller: Address,
    revoked_uid: Uid,
)
    requires
        s.inv(),
        s.indexes_distinct(),
        collision_free(
            s.stored_preimages().insert(
                s.next_preimage(issuer, schema_uid, subject, data, expiration, ref_uid),
            ),
        ),
    ensures
        s.attest(schemas, now, issuer, schema_uid, subject, data, expiration, ref_uid).0.indexes_distinct(),
        s.revoke(schemas, now, caller, revoked_uid).0.indexes_distinct(),
{
    let (t, r) = s.attest(schemas, now, issuer, schema_uid, subject, data, expiration, ref_uid);
    if r is Ok {
        let uid = r->Ok_0;
        law_attest_never_overwrites(s, schemas, now, issuer, schema_uid, subject, data, expiration, ref_uid);
        let old_index = s.index_of(subject);
        let full = old_index.push(uid);
        let c = capped_push(old_index, uid);
        assert forall|a: Address, i: int, j: int|
            #![trigger t.subjects[a][i], t.subjects[a][j]]
            t.subjects.contains_key(a) && 0 <= i < j < t.subjects[a].len()
                implies t.subjects[a][i] != t.subjects[a][j] by {
            if a != subject {
                assert(s.subjects[a][i] == t.subjects[a][i]);
                assert(s.subjects[a][j] == t.subjects[a][j]);
            } else {
                let k = full.len() - c.len();
                assert(c[i] == full[k + i]);
                assert(c[j] == full[k + j]);
                if k + j < old_index.len() {
                    assert(s.subjects.contains_key(subject));
                    assert(s.subjects[subject][k + i] != s.subjects[subject][k + j]);
                } else {
                    assert(s.subjects.contains_key(subject));
                    assert(s.attestations.contains_key(s.subjects[subject][k + i]));
                }
            }
        }
    }
}

/// Validity only ends: an attestation valid at some time was valid at every
/// earlier time.
pub proof fn law_validity_is_monotone_in_time(s: AttestationState, uid: Uid, earlier: u64, later: u64)
    requires
        earlier <= later,
        s.valid_at(uid, later),
    ensures
        s.valid_at(uid, earlier),
{
}

/// The same issuer making the same claim twice gets two different uid
/// preimages: the nonce sets them apart.
pub proof fn law_repeated_claims_have_distinct_preimages(
    s: AttestationState,
    schemas: Map<Uid, SchemaModel>,
    now1: u64,
    now2: u64,
    issuer: Address,
    schema_uid: Uid,
    subject: Address,
    data: Seq<u8>,
    expiration: Option<u64>,
    ref_uid: Option<Uid>,
)
    requires
        s.attest(schemas, now1, issuer, schema_uid, subject, data, expiration, ref_uid).1 is Ok,
        s.nonce_of(issuer) < u64::MAX,
    ensures
        ({
            let t = s.attest(
                schemas,
                now1,
                issuer,
                schema_uid,
                subject,
                data,
                expiration,
                ref_uid,
            ).0;
            &&& t.attest(schemas, now2, issuer, schema_uid, subject, data, expiration, ref_uid).1 is Ok
            &&& attestation_preimage(
                schema_uid,
                issuer,
                subject,
                data,
                expiration,
                ref_uid,
                s.nonce_of(issuer),
            ) != attestation_preimage(
                schema_uid,
                issuer,
                subject,
                data,
                expiration,
                ref_uid,
                t.nonce_of(issuer),
            )
        }),
{
    let t = s.attest(schemas, now1, issuer, schema_uid, subject, data, expiration, ref_uid).0;
    assert(t.nonce_of(issuer) == s.nonce_of(issuer) + 1);
    if attestation_preimage(schema_uid, issuer, subject, data, expiration, ref_uid, s.nonce_of(issuer))
        == attestation_preimage(schema_uid, issuer, subject, data, expiration, ref_uid, t.nonce_of(issuer)) {
        lemma_attestation_preimage_injective(
            schema_uid,
            issuer,
            subject,
            data,
            expiration,
            ref_uid,
            s.nonce_of(issuer),
            schema_uid,
            issuer,
            subject,
            data,
            expiration,
            ref_uid,
            t.nonce_of(issuer),
        );
    }
}

/// One call of the attestation registry, with the schemas of the bound
/// registry and the ledger time it runs against.
pub enum RegistryCall {
    Attest {
        schemas: Map<Uid, SchemaModel>,
        now: u64,
        issuer: Address,
        schema_uid: Uid,
        subject: Address,
        data: Seq<u8>,
        expiration: Option<u64>,
        ref_uid: Option<Uid>,
    },
    Revoke { schemas: Map<Uid, SchemaModel>, now: u64, issuer: Address, uid: Uid },
}

/// The state after one call.
pub open spec fn step(s: AttestationState, c: RegistryCall) -> AttestationState {
    match c {
        RegistryCall::Attest {
            schemas,
            now,
            issuer,
            schema_uid,
            subject,
            data,
            expiration,
            ref_uid,
        } => s.attest(schemas, now, issuer, schema_uid, subject, data, expiration, ref_uid).0,
        RegistryCall::Revoke { schemas, now, issuer, uid } => s.revoke(
            schemas,
            now,
            issuer,
            uid,
        ).0,
    }
}

/// The subject, schema uid and new uid of a call that is a successful attest.
pub open spec fn attested(s: AttestationState, c: RegistryCall) -> Option<(Address, Uid, Uid)> {
    match c {
        RegistryCall::Attest {
            schemas,
            now,
            issuer,
            schema_uid,
            subject,
            data,
            expiration,
            ref_uid,
        } => match s.attest(schemas, now, issuer, schema_uid, subject, data, expiration, ref_uid).1 {
            Ok(uid) => Some((subject, schema_uid, uid)),
            Err(_) => None,
        },
        RegistryCall::Revoke { .. } => None,
    }
}

/// The state after a sequence of calls, first call first.
pub open spec fn run(s: AttestationState, calls: Seq<RegistryCall>) -> AttestationState
    decreases calls.len(),
{
    if calls.len() == 0 {
        s
    } else {
        step(run(s, calls.drop_last()), calls.last())
    }
}

/// The uids of the successful attests about `subject` in a sequence of
/// calls, in call order.
pub open spec fn subject_history(
    s: AttestationState,
    calls: Seq<RegistryCall>,
    subject: Address,
) -> Seq<Uid>
    decreases calls.len(),
{
    if calls.len() == 0 {
        Seq::empty()
    } else {
        let earlier = subject_history(s, calls.drop_last(), subject);
        match attested(run(s, calls.drop_last()), calls.last()) {
            Some((who, _, uid)) => if who == subject {
                earlier.push(uid)
            } else {
                earlier
            },
            None => earlier,
        }
    }
}

/// The number of successful attests under `schema_uid` in a sequence of calls.
pub open spec fn schema_history(
    s: AttestationState,
    calls: Seq<RegistryCall>,
    schema_uid: Uid,
) -> nat
    decreases calls.len(),
{
    if calls.len() == 0 {
        0
    } else {
        let earlier = schema_history(s, calls.drop_last(), schema_uid);
        match attested(run(s, calls.drop_last()), calls.last()) {
            Some((_, which, _)) => if which == schema_uid {
                earlier + 1
            } else {
                earlier
            },
            None => earlier,
        }
    }
}

/// The last `n` elements of a sequence, or all of them when there are fewer.
pub open spec fn last_n(x: Seq<Uid>, n: nat) -> Seq<Uid> {
    if x.len() > n {
        x.subrange(x.len() - n, x.len() as int)
    } else {
        x
    }
}

proof fn lemma_capped_push_last_n(x: Seq<Uid>, uid: Uid)
    ensures
        capped_push(last_n(x, MAX_SUBJECT_INDEX as nat), uid) == last_n(
            x.push(uid),
            MAX_SUBJECT_INDEX as nat,
        ),
{
    let m = MAX_SUBJECT_INDEX as nat;
    let y = x.push(uid);
    if x.len() > m {
        let l = last_n(x, m);
        assert(capped_push(l, uid) =~= y.subrange(y.len() - m, y.len() as int));
    } else if x.len() == m {
        assert(capped_push(x, uid) =~= y.subrange(y.len() - m, y.len() as int));
    } else {
        assert(capped_push(x, uid) =~= y);
    }
}

/// Over any sequence of calls, a subject's index is the newest
/// `MAX_SUBJECT_INDEX` of its earlier index followed by the uids of the
/// successful attests about it, oldest first.
pub proof fn law_subject_index_history(
    s: AttestationState,
    calls: Seq<RegistryCall>,
    subject: Address,
)
    requires
        s.index_of(subject).len() <= MAX_SUBJECT_INDEX,
    ensures
        run(s, calls).index_of(subject) == last_n(
            s.index_of(subject) + subject_history(s, calls, subject),
            MAX_SUBJECT_INDEX as nat,
        ),
    decreases calls.len(),
{
    if calls.len() == 0 {
        assert(s.index_of(subject) + Seq::<Uid>::empty() =~= s.index_of(subject));
    } else {
        let before = calls.drop_last();
        law_subject_index_history(s, before, subject);
        let r = run(s, before);
        let earlier = s.index_of(subject) + subject_history(s, before, subject);
        match attested(r, calls.last()) {
            Some((who, _, uid)) => {
                if who == subject {
                    lemma_capped_push_last_n(earlier, uid);
                    assert(earlier.push(uid) =~= s.index_of(subject) + subject_history(
                        s,
                        calls,
                        subject,
                    ));
                }
            },
            None => {},
        }
    }
}

/// From a new registry, a subject's index over any sequence of calls is the
/// uids of the last `MAX_SUBJECT_INDEX` successful attests about it, oldest
/// first, and empty when there were none.
pub proof fn law_subject_index_from_start(
    registry: Option<Address>,
    calls: Seq<RegistryCall>,
    subject: Address,
)
    ensures
        run(AttestationState::initial(registry), calls).index_of(subject) == last_n(
            subject_history(AttestationState::initial(registry), calls, subject),
            MAX_SUBJECT_INDEX as nat,
        ),
{
    let s = AttestationState::initial(registry);
    law_subject_index_history(s, calls, subject);
    assert(s.index_of(subject) + subject_history(s, calls, subject) =~= subject_history(
        s,
        calls,
        subject,
    ));
}

/// Over any sequence of calls, a schema's count grows by exactly the number
/// of successful attests under it; revokes and failed calls leave it alone.
pub proof fn law_schema_count_history(
    s: AttestationState,
    calls: Seq<RegistryCall>,
    schema_uid: Uid,
)
    requires
        s.count_of(schema_uid) + calls.len() < u64::MAX,
    ensures
        schema_history(s, calls, schema_uid) <= calls.len(),
        run(s, calls).count_of(schema_uid) == s.count_of(schema_uid) + schema_history(
            s,
            calls,
            schema_uid,
        ),
    decreases calls.len(),
{
    if calls.len() > 0 {
        law_schema_count_history(s, calls.drop_last(), schema_uid);
    }
}

/// A call whose counters, should it succeed as an attest, stay below their
/// limit.
pub open spec fn call_fits(s: AttestationState, c: RegistryCall) -> bool {
    match c {
        RegistryCall::Attest { schemas, issuer, schema_uid, data, .. } => s.attest_fits(
            schemas,
            issuer,
            schema_uid,
            data,
        ),
        RegistryCall::Revoke { .. } => true,
    }
}

/// SHA-256 separates the preimage of the call, if it is an attest, from the
/// preimages of the records stored before it.
pub open spec fn call_separates(s: AttestationState, c: RegistryCall) -> bool {
    match c {
        RegistryCall::Attest {
            issuer,
            schema_uid,
            subject,
            data,
            expiration,
            ref_uid,
            ..
        } => collision_free(
            s.stored_preimages().insert(
                s.next_preimage(issuer, schema_uid, subject, data, expiration, ref_uid),
            ),
        ),
        RegistryCall::Revoke { .. } => true,
    }
}

/// Every call of a sequence fits in the state it runs in.
pub open spec fn run_fits(s: AttestationState, calls: Seq<RegistryCall>) -> bool {
    forall|i: int| 0 <= i < calls.len() ==> call_fits(run(s, calls.take(i)), #[trigger] calls[i])
}

/// SHA-256 separates every attest of a sequence from the records stored
/// before it.
pub open spec fn run_separates(s: AttestationState, calls: Seq<RegistryCall>) -> bool {
    forall|i: int|
        0 <= i < calls.len() ==> call_separates(run(s, calls.take(i)), #[trigger] calls[i])
}

proof fn lemma_run_prefix(s: AttestationState, calls: Seq<RegistryCall>)
    requires
        calls.len() > 0,
    ensures
        run(s, calls.take(calls.len() - 1)) == run(s, calls.drop_last()),
        run_fits(s, calls) ==> run_fits(s, calls.drop_last()) && call_fits(
            run(s, calls.drop_last()),
            calls.last(),
        ),
        run_separates(s, calls) ==> run_separates(s, calls.drop_last()) && call_separates(
            run(s, calls.drop_last()),
            calls.last(),
        ),
{
    let before = calls.drop_last();
    assert(calls.take(calls.len() - 1) =~= before);
    assert forall|i: int| 0 <= i < before.len() implies #[trigger] before.take(i) == calls.take(
        i,
    ) && before[i] == calls[i] by {
        assert(before.take(i) =~= calls.take(i));
    }
    if run_fits(s, calls) {
        assert forall|i: int| 0 <= i < before.len() implies call_fits(
            run(s, before.take(i)),
            #[trigger] before[i],
        ) by {
            assert(before.take(i) == calls.take(i) && before[i] == calls[i]);
            assert(call_fits(run(s, calls.take(i)), calls[i]));
        }
        assert(call_fits(run(s, calls.take(calls.len() - 1)), calls[calls.len() - 1]));
    }
    if run_separates(s, calls) {
        assert forall|i: int| 0 <= i < before.len() implies call_separates(
            run(s, before.take(i)),
            #[trigger] before[i],
        ) by {
            assert(before.take(i) == calls.take(i) && before[i] == calls[i]);
            assert(call_separates(run(s, calls.take(i)), calls[i]));
        }
        assert(call_separates(run(s, calls.take(calls.len() - 1)), calls[calls.len() - 1]));
    }
}

/// A call moves an issuer's nonce and a schema's count up by at most one.
proof fn lemma_step_counters(s: AttestationState, c: RegistryCall, who: Address, schema_uid: Uid)
    ensures
        step(s, c).nonce_of(who) <= s.nonce_of(who) + 1,
        step(s, c).count_of(schema_uid) <= s.count_of(schema_uid) + 1,
{
}

/// Over a sequence of calls, an issuer's nonce and a schema's count grow by
/// at most the number of calls.
pub proof fn law_counters_grow_by_at_most_one_per_call(
    s: AttestationState,
    calls: Seq<RegistryCall>,
    who: Address,
    schema_uid: Uid,
)
    ensures
        run(s, calls).nonce_of(who) <= s.nonce_of(who) + calls.len(),
        run(s, calls).count_of(schema_uid) <= s.count_of(schema_uid) + calls.len(),
    decreases calls.len(),
{
    if calls.len() > 0 {
        law_counters_grow_by_at_most_one_per_call(s, calls.drop_last(), who, schema_uid);
        lemma_step_counters(run(s, calls.drop_last()), calls.last(), who, schema_uid);
    }
}

/// From a new registry, every call of a sequence shorter than `u64::MAX`
/// calls fits.
pub proof fn law_short_runs_fit(registry: Option<Address>, calls: Seq<RegistryCall>)
    requires
        calls.len() < u64::MAX,
    ensures
        run_fits(AttestationState::initial(registry), calls),
{
    let s = AttestationState::initial(registry);
    assert forall|i: int| 0 <= i < calls.len() implies call_fits(
        run(s, calls.take(i)),
        #[trigger] calls[i],
    ) by {
        let t = run(s, calls.take(i));
        match calls[i] {
            RegistryCall::Attest { issuer, schema_uid, .. } => {
                law_counters_grow_by_at_most_one_per_call(s, calls.take(i), issuer, schema_uid);
            },
            RegistryCall::Revoke { .. } => {},
        }
    }
}

/// Every state reached by calls that fit keeps the invariant: indexes are
/// capped at `MAX_SUBJECT_INDEX` and list stored records, revocation and its
/// time go together, and every record sits under the uid of its own claim.
pub proof fn law_run_keeps_invariant(s: AttestationState, calls: Seq<RegistryCall>)
    requires
        s.inv(),
        run_fits(s, calls),
    ensures
        run(s, calls).inv(),
    decreases calls.len(),
{
    if calls.len() > 0 {
        lemma_run_prefix(s, calls);
        law_run_keeps_invariant(s, calls.drop_last());
        let t = run(s, calls.drop_last());
        match calls.last() {
            RegistryCall::Attest {
                schemas,
                now,
                issuer,
                schema_uid,
                subject,
                data,
                expiration,
                ref_uid,
            } => {
                law_attest_keeps_invariant(
                    t,
                    schemas,
                    now,
                    issuer,
                    schema_uid,
                    subject,
                    data,
                    expiration,
                    ref_uid,
                );
            },
            RegistryCall::Revoke { schemas, now, issuer, uid } => {
                law_revoke_keeps_invariant(t, schemas, now, issuer, uid);
            },
        }
    }
}

/// Over any sequence of calls that fit and that SHA-256 separates, no
/// subject index comes to list a uid twice.
pub proof fn law_run_keeps_indexes_distinct(s: AttestationState, calls: Seq<RegistryCall>)
    requires
        s.inv(),
        s.indexes_distinct(),
        run_fits(s, calls),
        run_separates(s, calls),
    ensures
        run(s, calls).indexes_distinct(),
    decreases calls.len(),
{
    if calls.len() > 0 {
        lemma_run_prefix(s, calls);
        law_run_keeps_indexes_distinct(s, calls.drop_last());
        law_run_keeps_invariant(s, calls.drop_last());
        let t = run(s, calls.drop_last());
        match calls.last() {
            RegistryCall::Attest {
                schemas,
                now,
                issuer,
                schema_uid,
                subject,
                data,
                expiration,
                ref_uid,
            } => {
                law_indexes_stay_distinct(
                    t,
                    schemas,
                    now,
                    issuer,
                    schema_uid,
                    subject,
                    data,
                    expiration,
                    ref_uid,
                    issuer,
                    schema_uid,
                );
            },
            RegistryCall::Revoke { schemas, now, issuer, uid } => {
                assert(t.revoke(schemas, now, issuer, uid).0.subjects == t.subjects);
            },
        }
    }
}

/// A stored record, seen apart from its revocation.
pub open spec fn claim_of(r: AttestationModel) -> AttestationModel {
    AttestationModel { revoked: false, revocation_time: None, ..r }
}

/// Over any sequence of calls that fit and that SHA-256 separates, a stored
/// record stays stored, only its revocation may change, and once revoked it
/// never changes again.
pub proof fn law_run_changes_records_only_by_revocation(
    s: AttestationState,
    calls: Seq<RegistryCall>,
    uid: Uid,
)
    requires
        s.inv(),
        run_fits(s, calls),
        run_separates(s, calls),
        s.attestations.contains_key(uid),
    ensures
        run(s, calls).attestations.contains_key(uid),
        claim_of(run(s, calls).attestations[uid]) == claim_of(s.attestations[uid]),
        s.attestations[uid].revoked ==> run(s, calls).attestations[uid] == s.attestations[uid],
    decreases calls.len(),
{
    if calls.len() > 0 {
        lemma_run_prefix(s, calls);
        law_run_changes_records_only_by_revocation(s, calls.drop_last(), uid);
        law_run_keeps_invariant(s, calls.drop_last());
        let t = run(s, calls.drop_last());
        match calls.last() {
            RegistryCall::Attest {
                schemas,
                now,
                issuer,
                schema_uid,
                subject,
                data,
                expiration,
                ref_uid,
            } => {
                law_attest_never_overwrites(
                    t,
                    schemas,
                    now,
                    issuer,
                    schema_uid,
                    subject,
                    data,
                    expiration,
                    ref_uid,
                );
            },
            RegistryCall::Revoke { schemas, now, issuer, uid: target } => {
                law_revoke_changes_only_its_record(t, schemas, now, issuer, target, uid);
            },
        }
    }
}

/// Over any sequence of calls that fit and that SHA-256 separates, a stored
/// attestation that is invalid at some time is invalid at every later time.
pub proof fn law_run_keeps_invalid(
    s: AttestationState,
    calls: Seq<RegistryCall>,
    uid: Uid,
    at: u64,
    later: u64,
)
    requires
        s.inv(),
        run_fits(s, calls),
        run_separates(s, calls),
        s.attestations.contains_key(uid),
        !s.valid_at(uid, at),
        at <= later,
    ensures
        !run(s, calls).valid_at(uid, later),
{
    law_run_changes_records_only_by_revocation(s, calls, uid);
    let r0 = s.attestations[uid];
    let r1 = run(s, calls).attestations[uid];
    assert(claim_of(r1).expiration == claim_of(r0).expiration);
    if r0.revoked {
        assert(r1 == r0);
    }
}

/// From a new registry, over any sequence of fewer than `u64::MAX` calls that
/// SHA-256 separates, every state keeps the invariant and no subject index
/// lists a uid twice.
pub proof fn law_reachable_states_are_sound(registry: Option<Address>, calls: Seq<RegistryCall>)
    requires
        calls.len() < u64::MAX,
        run_separates(AttestationState::initial(registry), calls),
    ensures
        run(AttestationState::initial(registry), calls).inv(),
        run(AttestationState::initial(registry), calls).indexes_distinct(),
{
    let s = AttestationState::initial(registry);
    law_short_runs_fit(registry, calls);
    law_run_keeps_invariant(s, calls);
    law_run_keeps_indexes_distinct(s, calls);
}

} // verus!
