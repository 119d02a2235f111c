//! The attestation registry: attestations made under schemas held by a schema
//! registry, a per-subject index capped at `MAX_SUBJECT_INDEX` uids, a
//! per-issuer nonce and a per-schema attestation count.

use crate::host::{
    address_xdr, bytes_xdr, index_clone, index_len, index_new, index_push, index_remove_first,
    index_uids, read_ledger_time, reads_ledger_time, option_u64_xdr, option_uid_xdr, sha256,
    sha256_digest, u64_xdr, uid_xdr,
};
use crate::schema_registry::{SchemaModel, SchemaRegistry};
use crate::table::{Table, TableValue};
use crate::types::{
    append_bytes, copy_bytes, lemma_uid_of_view, same_address, uid_of, Address, Uid,
};
use crate::laws::{law_attest_keeps_invariant, law_attest_never_overwrites, law_revoke_keeps_invariant};
use crate::xdr::attestation_preimage;
use soroban_sdk::{BytesN, Env};
use vstd::prelude::*;

verus! {

/// Longest attestation data field, in bytes.
pub const MAX_DATA_LEN: u32 = 1024;

/// Most uids that a subject index holds; the oldest are evicted from the
/// index only, never from the records.
pub const MAX_SUBJECT_INDEX: u32 = 100;

/// Why the attestation registry refused a call.
#[derive(Clone, Copy, Debug, PartialEq, Eq, Structural)]
pub enum Error {
    /// The schema uid is not present in the schema registry.
    SchemaNotFound,
    /// No attestation is stored under the uid.
    AttestationNotFound,
    /// The caller is not the attestation's issuer.
    NotAuthorizedToRevoke,
    /// The attestation's schema is not revocable.
    SchemaNotRevocable,
    /// The attestation is already revoked.
    AlreadyRevoked,
    /// The data is longer than `MAX_DATA_LEN` bytes.
    DataTooLong,
    /// No schema registry is bound to the contract.
    NotInitialized,
}

impl Error {
    /// The stable numeric code of the error.
    pub fn code(&self) -> (c: u32)
        ensures
            c == match *self {
                Error::SchemaNotFound => 1u32,
                Error::AttestationNotFound => 2u32,
                Error::NotAuthorizedToRevoke => 3u32,
                Error::SchemaNotRevocable => 4u32,
                Error::AlreadyRevoked => 5u32,
                Error::DataTooLong => 6u32,
                Error::NotInitialized => 7u32,
            },
    {
        match self {
            Error::SchemaNotFound => 1,
            Error::AttestationNotFound => 2,
            Error::NotAuthorizedToRevoke => 3,
            Error::SchemaNotRevocable => 4,
            Error::AlreadyRevoked => 5,
            Error::DataTooLong => 6,
            Error::NotInitialized => 7,
        }
    }
}

/// One attestation: a claim an issuer made about a subject under a schema.
#[derive(Clone, Debug, PartialEq, Eq)]
pub struct Attestation {
    pub schema_uid: Uid,
    pub issuer: Address,
    pub subject: Address,
    pub data: Vec<u8>,
    pub expiration: Option<u64>,
    pub ref_uid: Option<Uid>,
    pub revoked: bool,
    pub revocation_time: Option<u64>,
    pub created_at: u64,
}

/// The content of an attestation.
pub struct AttestationModel {
    pub schema_uid: Uid,
    pub issuer: Address,
    pub subject: Address,
    pub data: Seq<u8>,
    pub expiration: Option<u64>,
    pub ref_uid: Option<Uid>,
    pub revoked: bool,
    pub revocation_time: Option<u64>,
    pub created_at: u64,
}

impl View for Attestation {
    type V = AttestationModel;

    open spec fn view(&self) -> AttestationModel {
        AttestationModel {
            schema_uid: self.schema_uid,
            issuer: self.issuer,
            subject: self.subject,
            data: self.data@,
            expiration: self.expiration,
            ref_uid: self.ref_uid,
            revoked: self.revoked,
            revocation_time: self.revocation_time,
            created_at: self.created_at,
        }
    }
}

impl TableValue for Attestation {
    fn duplicate(&self) -> (r: Self) {
        Attestation {
            schema_uid: self.schema_uid,
            issuer: self.issuer,
            subject: self.subject,
            data: copy_bytes(&self.data),
            expiration: self.expiration,
            ref_uid: self.ref_uid,
            revoked: self.revoked,
            revocation_time: self.revocation_time,
            created_at: self.created_at,
        }
    }
}

/// A subject index as the host holds it: a host vector of uids, oldest
/// first.
pub struct SubjectIndex {
    items: soroban_sdk::Vec<BytesN<32>>,
}

impl View for SubjectIndex {
    type V = Seq<Uid>;

    closed spec fn view(&self) -> Seq<Uid> {
        index_uids(self.items)
    }
}

impl TableValue for SubjectIndex {
    fn duplicate(&self) -> (r: Self) {
        SubjectIndex { items: index_clone(&self.items) }
    }
}

/// What the schema registry answers about a schema.
#[derive(Clone, Debug, PartialEq, Eq)]
pub struct SchemaView {
    pub authority: Address,
    pub name: String,
    pub definition: Vec<u8>,
    pub revocable: bool,
    pub resolver: Option<Address>,
}

impl View for SchemaView {
    type V = SchemaModel;

    open spec fn view(&self) -> SchemaModel {
        SchemaModel {
            authority: self.authority,
            name: self.name@,
            definition: self.definition@,
            revocable: self.revocable,
            resolver: self.resolver,
        }
    }
}

/// Event recorded on every successful attest.
#[derive(Clone, Copy, Debug, PartialEq, Eq)]
pub struct Attested {
    pub schema_uid: Uid,
    pub attestation_uid: Uid,
    pub issuer: Address,
    pub subject: Address,
    pub expiration: Option<u64>,
}

/// Event recorded on every successful revoke.
#[derive(Clone, Copy, Debug, PartialEq, Eq)]
pub struct Revoked {
    pub schema_uid: Uid,
    pub attestation_uid: Uid,
    pub issuer: Address,
    pub subject: Address,
    pub revocation_time: u64,
}

/// An event of the attestation registry.
#[derive(Clone, Copy, Debug, PartialEq, Eq)]
pub enum AttestationEvent {
    Attested(Attested),
    Revoked(Revoked),
}

/// The uid of an attestation: the SHA-256 digest of the XDR of its schema
/// uid, issuer, subject, data, expiration and reference uid, followed by the
/// XDR of the issuer's nonce.
pub open spec fn attestation_uid(
    schema_uid: Uid,
    issuer: Address,
    subject: Address,
    data: Seq<u8>,
    expiration: Option<u64>,
    ref_uid: Option<Uid>,
    nonce: u64,
) -> Uid {
    uid_of(
        sha256_digest(
            attestation_preimage(schema_uid, issuer, subject, data, expiration, ref_uid, nonce),
        ),
    )
}

/// The uid preimage of a stored claim under the issuer nonce `nonce`.
pub open spec fn record_preimage(r: AttestationModel, nonce: u64) -> Seq<u8> {
    attestation_preimage(r.schema_uid, r.issuer, r.subject, r.data, r.expiration, r.ref_uid, nonce)
}

/// The uid of a stored claim under the issuer nonce `nonce`.
pub open spec fn record_uid(r: AttestationModel, nonce: u64) -> Uid {
    uid_of(sha256_digest(record_preimage(r, nonce)))
}

/// SHA-256 gives distinct uids to distinct byte strings of `inputs`: the
/// collision resistance of the host's hash, on the inputs at hand.
pub open spec fn collision_free(inputs: Set<Seq<u8>>) -> bool {
    forall|x: Seq<u8>, y: Seq<u8>|
        #![trigger inputs.contains(x), inputs.contains(y)]
        inputs.contains(x) && inputs.contains(y) && x != y ==> uid_of(sha256_digest(x)) != uid_of(
            sha256_digest(y),
        )
}

/// A subject index after `uid` is appended: the newest `MAX_SUBJECT_INDEX`
/// uids, oldest first.
pub open spec fn capped_push(index: Seq<Uid>, uid: Uid) -> Seq<Uid> {
    let full = index.push(uid);
    if full.len() > MAX_SUBJECT_INDEX {
        full.subrange(full.len() - MAX_SUBJECT_INDEX, full.len() as int)
    } else {
        full
    }
}

/// The state of an attestation registry.
#[verifier::ext_equal]
pub struct AttestationState {
    /// The bound schema registry, once the contract is initialised.
    pub registry: Option<Address>,
    /// Attestations by uid.
    pub attestations: Map<Uid, AttestationModel>,
    /// The capped, most recent attestation uids of each subject.
    pub subjects: Map<Address, Seq<Uid>>,
    /// The number of successful attests of each issuer.
    pub nonces: Map<Address, u64>,
    /// The number of attestations ever issued under each schema.
    pub schema_counts: Map<Uid, u64>,
    /// Events, oldest first.
    pub events: Seq<AttestationEvent>,
}

impl AttestationState {
    /// A registry with no attestation, bound to `registry` if given.
    pub open spec fn initial(registry: Option<Address>) -> AttestationState {
        AttestationState {
            registry,
            attestations: Map::empty(),
            subjects: Map::empty(),
            nonces: Map::empty(),
            schema_counts: Map::empty(),
            events: Seq::empty(),
        }
    }

    /// The issuer's nonce: the number of its successful attests.
    pub open spec fn nonce_of(self, issuer: Address) -> u64 {
        if self.nonces.contains_key(issuer) {
            self.nonces[issuer]
        } else {
            0
        }
    }

    /// The number of attestations issued under a schema.
    pub open spec fn count_of(self, schema_uid: Uid) -> u64 {
        if self.schema_counts.contains_key(schema_uid) {
            self.schema_counts[schema_uid]
        } else {
            0
        }
    }

    /// The subject index of a subject; empty when it has none.
    pub open spec fn index_of(self, subject: Address) -> Seq<Uid> {
        if self.subjects.contains_key(subject) {
            self.subjects[subject]
        } else {
            Seq::empty()
        }
    }

    /// Whether an attestation exists, is not revoked, and is either
    /// non-expiring or expires strictly after `now`.
    pub open spec fn valid_at(self, uid: Uid, now: u64) -> bool {
        &&& self.attestations.contains_key(uid)
        &&& !self.attestations[uid].revoked
        &&& match self.attestations[uid].expiration {
            None => true,
            Some(exp) => exp > now,
        }
    }

    /// Subject indexes are capped and list stored attestations only; a record
    /// is revoked exactly when it has a revocation time; data is bounded; and
    /// every record is stored under the uid derived from its own claim and a
    /// nonce that its issuer has already used.
    pub open spec fn inv(self) -> bool {
        &&& forall|s: Address| #[trigger]
            self.subjects.contains_key(s) ==> self.subjects[s].len() <= MAX_SUBJECT_INDEX
        &&& forall|s: Address, i: int|
            #![trigger self.subjects[s][i]]
            self.subjects.contains_key(s) && 0 <= i < self.subjects[s].len()
                ==> self.attestations.contains_key(self.subjects[s][i])
        &&& forall|u: Uid| #[trigger]
            self.attestations.contains_key(u) ==> {
                &&& self.attestations[u].revoked == (self.attestations[u].revocation_time is Some)
                &&& self.attestations[u].data.len() <= MAX_DATA_LEN
                &&& exists|k: u64|
                    k < self.nonce_of(self.attestations[u].issuer) && u == #[trigger] record_uid(
                        self.attestations[u],
                        k,
                    )
            }
    }

    /// The uid preimages of the stored attestations: each record's claim with
    /// a nonce below its issuer's current nonce.
    pub open spec fn stored_preimages(self) -> Set<Seq<u8>> {
        Set::new(
            |p: Seq<u8>|
                exists|u: Uid, k: u64|
                    self.attestations.contains_key(u) && k < self.nonce_of(
                        self.attestations[u].issuer,
                    ) && p == #[trigger] record_preimage(self.attestations[u], k),
        )
    }

    /// The preimage that the next attest of this claim by `issuer` hashes.
    pub open spec fn next_preimage(
        self,
        issuer: Address,
        schema_uid: Uid,
        subject: Address,
        data: Seq<u8>,
        expiration: Option<u64>,
        ref_uid: Option<Uid>,
    ) -> Seq<u8> {
        attestation_preimage(
            schema_uid,
            issuer,
            subject,
            data,
            expiration,
            ref_uid,
            self.nonce_of(issuer),
        )
    }

    /// No two subject indexes entries of one subject are the same uid.
    pub open spec fn indexes_distinct(self) -> bool {
        forall|s: Address, i: int, j: int|
            #![trigger self.subjects[s][i], self.subjects[s][j]]
            self.subjects.contains_key(s) && 0 <= i < j < self.subjects[s].len()
                ==> self.subjects[s][i] != self.subjects[s][j]
    }

    /// What `attest` does at ledger time `now`, with `schemas` the schemas of
    /// the bound registry: the state after the call and its result.
    pub open spec fn attest(
        self,
        schemas: Map<Uid, SchemaModel>,
        now: u64,
        issuer: Address,
        schema_uid: Uid,
        subject: Address,
        data: Seq<u8>,
        expiration: Option<u64>,
        ref_uid: Option<Uid>,
    ) -> (AttestationState, Result<Uid, Error>) {
        if data.len() > MAX_DATA_LEN {
            (self, Err(Error::DataTooLong))
        } else if self.registry is None {
            (self, Err(Error::NotInitialized))
        } else if !schemas.contains_key(schema_uid) {
            (self, Err(Error::SchemaNotFound))
        } else {
            let nonce = self.nonce_of(issuer);
            let uid = attestation_uid(schema_uid, issuer, subject, data, expiration, ref_uid, nonce);
            let record = AttestationModel {
                schema_uid,
                issuer,
                subject,
                data,
                expiration,
                ref_uid,
                revoked: false,
                revocation_time: None,
                created_at: now,
            };
            let event = AttestationEvent::Attested(
                Attested { schema_uid, attestation_uid: uid, issuer, subject, expiration },
            );
            (
                AttestationState {
                    attestations: self.attestations.insert(uid, record),
                    subjects: self.subjects.insert(subject, capped_push(self.index_of(subject), uid)),
                    nonces: self.nonces.insert(issuer, (nonce + 1) as u64),
                    schema_counts: self.schema_counts.insert(
                        schema_uid,
                        (self.count_of(schema_uid) + 1) as u64,
                    ),
                    events: self.events.push(event),
                    ..self
                },
                Ok(uid),
            )
        }
    }

    /// The counters that a successful attest increments are below their limit.
    pub open spec fn attest_fits(
        self,
        schemas: Map<Uid, SchemaModel>,
        issuer: Address,
        schema_uid: Uid,
        data: Seq<u8>,
    ) -> bool {
        (data.len() <= MAX_DATA_LEN && self.registry is Some && schemas.contains_key(schema_uid))
            ==> (self.nonce_of(issuer) < u64::MAX && self.count_of(schema_uid) < u64::MAX)
    }

    /// What `revoke` does at ledger time `now`, with `schemas` the schemas of
    /// the bound registry: the state after the call and its result.
    pub open spec fn revoke(
        self,
        schemas: Map<Uid, SchemaModel>,
        now: u64,
        issuer: Address,
        uid: Uid,
    ) -> (AttestationState, Result<(), Error>) {
        if !self.attestations.contains_key(uid) {
            (self, Err(Error::AttestationNotFound))
        } else {
            let a = self.attestations[uid];
            if a.issuer != issuer {
                (self, Err(Error::NotAuthorizedToRevoke))
            } else if a.revoked {
                (self, Err(Error::AlreadyRevoked))
            } else if self.registry is None {
                (self, Err(Error::NotInitialized))
            } else if !schemas.contains_key(a.schema_uid) {
                (self, Err(Error::SchemaNotFound))
            } else if !schemas[a.schema_uid].revocable {
                (self, Err(Error::SchemaNotRevocable))
            } else {
                let record = AttestationModel {
                    revoked: true,
                    revocation_time: Some(now),
                    ..a
                };
                let event = AttestationEvent::Revoked(
                    Revoked {
                        schema_uid: a.schema_uid,
                        attestation_uid: uid,
                        issuer,
                        subject: a.subject,
                        revocation_time: now,
                    },
                );
                (
                    AttestationState {
                        attestations: self.attestations.insert(uid, record),
                        events: self.events.push(event),
                        ..self
                    },
                    Ok(()),
                )
            }
        }
    }
}

/// Derives the attestation uid: the SHA-256 digest of
/// `xdr(schema_uid) || xdr(issuer) || xdr(subject) || xdr(data) ||
/// xdr(expiration) || xdr(ref_uid) || xdr(nonce)`.
pub fn derive_uid(
    env: &Env,
    schema_uid: &Uid,
    issuer: &Address,
    subject: &Address,
    data: &[u8],
    expiration: Option<u64>,
    ref_uid: &Option<Uid>,
    nonce: u64,
) -> (uid: Uid)
    requires
        data@.len() <= u32::MAX,
    ensures
        uid == attestation_uid(*schema_uid, *issuer, *subject, data@, expiration, *ref_uid, nonce),
{
    let mut buf: Vec<u8> = Vec::new();
    append_bytes(&mut buf, &uid_xdr(env, schema_uid));
    append_bytes(&mut buf, &address_xdr(env, issuer));
    append_bytes(&mut buf, &address_xdr(env, subject));
    append_bytes(&mut buf, &bytes_xdr(env, data));
    append_bytes(&mut buf, &option_u64_xdr(env, expiration));
    append_bytes(&mut buf, &option_uid_xdr(env, ref_uid));
    append_bytes(&mut buf, &u64_xdr(env, nonce));
    assert(buf@ =~= attestation_preimage(
        *schema_uid,
        *issuer,
        *subject,
        data@,
        expiration,
        *ref_uid,
        nonce,
    ));
    let uid = sha256(env, buf.as_slice());
    proof {
        lemma_uid_of_view(uid);
    }
    uid
}

/// An attestation registry: its binding to a schema registry and its stored
/// attestations, subject indexes, nonces and counts.
pub struct AttestationContract {
    registry: Option<Address>,
    attestations: Table<Uid, Attestation>,
    subjects: Table<Address, SubjectIndex>,
    nonces: Table<Address, u64>,
    schema_counts: Table<Uid, u64>,
    events: Vec<AttestationEvent>,
}

impl View for AttestationContract {
    type V = AttestationState;

    closed spec fn view(&self) -> AttestationState {
        AttestationState {
            registry: self.registry,
            attestations: self.attestations@,
            subjects: self.subjects@,
            nonces: self.nonces@,
            schema_counts: self.schema_counts@,
            events: self.events@,
        }
    }
}

impl AttestationContract {
    /// The tables are well formed.
    pub closed spec fn wf(&self) -> bool {
        &&& self.attestations.wf()
        &&& self.subjects.wf()
        &&& self.nonces.wf()
        &&& self.schema_counts.wf()
    }

    /// Whether `registry` is the schema registry this contract is bound to,
    /// when it is bound at all.
    pub open spec fn serves(&self, registry: &SchemaRegistry) -> bool {
        &&& registry.wf()
        &&& (self@.registry matches Some(a) ==> registry@.address == a)
    }

    /// A registry bound to the schema registry at `registry`.
    pub fn new(registry: Address) -> (r: AttestationContract)
        ensures
            r.wf(),
            r@ == AttestationState::initial(Some(registry)),
    {
        AttestationContract {
            registry: Some(registry),
            attestations: Table::new(),
            subjects: Table::new(),
            nonces: Table::new(),
            schema_counts: Table::new(),
            events: Vec::new(),
        }
    }

    /// A registry that no schema registry has been bound to yet.
    pub fn unbound() -> (r: AttestationContract)
        ensures
            r.wf(),
            r@ == AttestationState::initial(None),
    {
        AttestationContract {
            registry: None,
            attestations: Table::new(),
            subjects: Table::new(),
            nonces: Table::new(),
            schema_counts: Table::new(),
            events: Vec::new(),
        }
    }

    /// The events the registry has recorded, oldest first.
    pub fn events(&self) -> (e: &Vec<AttestationEvent>)
        ensures
            e@ == self@.events,
    {
        &self.events
    }

    fn registry_id(&self) -> (r: Result<Address, Error>)
        ensures
            r == match self@.registry {
                Some(a) => Ok::<Address, Error>(a),
                None => Err(Error::NotInitialized),
            },
    {
        match self.registry {
            Some(a) => Ok(a),
            None => Err(Error::NotInitialized),
        }
    }

    /// The bound schema registry's address.
    pub fn registry(&self) -> (r: Result<Address, Error>)
        ensures
            r == match self@.registry {
                Some(a) => Ok::<Address, Error>(a),
                None => Err(Error::NotInitialized),
            },
    {
        self.registry_id()
    }

    /// Asks the bound schema registry for a schema.
    pub fn lookup_schema(&self, registry: &SchemaRegistry, schema_uid: &Uid) -> (r: Result<
        Option<SchemaView>,
        Error,
    >)
        requires
            self.serves(registry),
        ensures
            self@.registry is None ==> r == Err::<Option<SchemaView>, Error>(Error::NotInitialized),
            self@.registry is Some ==> r is Ok,
            r matches Ok(found) ==> (found is Some == registry@.schemas.contains_key(*schema_uid)),
            r matches Ok(Some(view)) ==> view@ == registry@.schemas[*schema_uid],
    {
        let _registry_address = self.registry_id()?;
        match registry.get_schema(*schema_uid) {
            Some(schema) => Ok(
                Some(
                    SchemaView {
                        authority: schema.authority,
                        name: schema.name,
                        definition: schema.definition,
                        revocable: schema.revocable,
                        resolver: schema.resolver,
                    },
                ),
            ),
            None => Ok(None),
        }
    }

    /// The issuer's nonce: the number of its successful attests.
    pub fn nonce(&self, issuer: &Address) -> (n: u64)
        requires
            self.wf(),
        ensures
            n == self@.nonce_of(*issuer),
    {
        match self.nonces.get(issuer) {
            Some(n) => n,
            None => 0,
        }
    }

    fn push_subject_index(&mut self, env: &Env, subject: Address, uid: Uid)
        requires
            old(self).wf(),
        ensures
            final(self).wf(),
            final(self)@ == (AttestationState {
                subjects: old(self)@.subjects.insert(
                    subject,
                    capped_push(old(self)@.index_of(subject), uid),
                ),
                ..old(self)@
            }),
            (forall|a: Address| #[trigger] old(self)@.index_of(a).len() <= MAX_SUBJECT_INDEX)
                ==> (forall|a: Address| #[trigger] final(self)@.index_of(a).len() <= MAX_SUBJECT_INDEX),
    {
        let mut list: SubjectIndex = match self.subjects.get(&subject) {
            Some(l) => l,
            None => SubjectIndex { items: index_new(env) },
        };
        index_push(&mut list.items, &uid);
        let ghost full = old(self)@.index_of(subject).push(uid);
        assert(list@ =~= full);
        while index_len(&list.items) > MAX_SUBJECT_INDEX
            invariant
                list@.len() <= full.len(),
                list@ == full.subrange(full.len() - list@.len(), full.len() as int),
                full.len() > MAX_SUBJECT_INDEX ==> list@.len() >= MAX_SUBJECT_INDEX,
                full.len() <= MAX_SUBJECT_INDEX ==> list@ == full,
            decreases list@.len(),
        {
            index_remove_first(&mut list.items);
            assert(list@ =~= full.subrange(full.len() - list@.len(), full.len() as int));
        }
        assert(list@ =~= capped_push(old(self)@.index_of(subject), uid));
        self.subjects.insert(subject, list);
        proof {
            crate::laws::lemma_capped_push(old(self)@.index_of(subject), uid);
            assert forall|a: Address| (forall|b: Address| #[trigger] old(self)@.index_of(b).len()
                <= MAX_SUBJECT_INDEX) implies #[trigger] self@.index_of(a).len()
                <= MAX_SUBJECT_INDEX by {
                assert(old(self)@.index_of(a).len() <= MAX_SUBJECT_INDEX);
                assert(old(self)@.index_of(subject).len() <= MAX_SUBJECT_INDEX);
            }
        }
    }

    /// Creates an attestation at ledger time `now` under a schema held by
    /// `registry`, and returns its uid.
    pub fn attest_at(
        &mut self,
        env: &Env,
        registry: &SchemaRegistry,
        now: u64,
        issuer: Address,
        schema_uid: Uid,
        subject: Address,
        data: Vec<u8>,
        expiration: Option<u64>,
        ref_uid: Option<Uid>,
    ) -> (r: Result<Uid, Error>)
        requires
            old(self).wf(),
            old(self).serves(registry),
            old(self)@.attest_fits(registry@.schemas, issuer, schema_uid, data@),
        ensures
            final(self).wf(),
            final(self)@ == old(self)@.attest(
                registry@.schemas,
                now,
                issuer,
                schema_uid,
                subject,
                data@,
                expiration,
                ref_uid,
            ).0,
            r == old(self)@.attest(
                registry@.schemas,
                now,
                issuer,
                schema_uid,
                subject,
                data@,
                expiration,
                ref_uid,
            ).1,
            old(self)@.inv() ==> final(self)@.inv(),
            old(self)@.inv() && collision_free(
                old(self)@.stored_preimages().insert(
                    old(self)@.next_preimage(issuer, schema_uid, subject, data@, expiration, ref_uid),
                ),
            ) ==> (r matches Ok(uid) ==> !old(self)@.attestations.contains_key(uid)),
    {
        let ghost old_state = self@;
        let ghost data_view = data@;
        if data.len() > MAX_DATA_LEN as usize {
            return Err(Error::DataTooLong);
        }
        match self.lookup_schema(registry, &schema_uid) {
            Err(e) => {
                return Err(e);
            },
            Ok(None) => {
                return Err(Error::SchemaNotFound);
            },
            Ok(Some(_)) => {},
        }
        let nonce = self.nonce(&issuer);
        let uid = derive_uid(
            env,
            &schema_uid,
            &issuer,
            &subject,
            data.as_slice(),
            expiration,
            &ref_uid,
            nonce,
        );
        let attestation = Attestation {
            schema_uid,
            issuer,
            subject,
            data,
            expiration,
            ref_uid,
            revoked: false,
            revocation_time: None,
            created_at: now,
        };
        self.attestations.insert(uid, attestation);
        self.nonces.insert(issuer, nonce + 1);
        self.push_subject_index(env, subject, uid);
        let count = match self.schema_counts.get(&schema_uid) {
            Some(c) => c,
            None => 0,
        };
        self.schema_counts.insert(schema_uid, count + 1);
        self.events.push(
            AttestationEvent::Attested(
                Attested { schema_uid, attestation_uid: uid, issuer, subject, expiration },
            ),
        );
        proof {
            if old_state.inv() {
                law_attest_keeps_invariant(
                    old_state,
                    registry@.schemas,
                    now,
                    issuer,
                    schema_uid,
                    subject,
                    data_view,
                    expiration,
                    ref_uid,
                );
                if collision_free(
                    old_state.stored_preimages().insert(
                        old_state.next_preimage(issuer, schema_uid, subject, data_view, expiration, ref_uid),
                    ),
                ) {
                    law_attest_never_overwrites(
                    old_state,
                    registry@.schemas,
                    now,
                    issuer,
                    schema_uid,
                    subject,
                    data_view,
                    expiration,
                    ref_uid,
                );
                }
            }
        }
        Ok(uid)
    }

    /// Creates an attestation at the current ledger time under a schema held
    /// by `registry`, and returns its uid.
    pub fn attest(
        &mut self,
        env: &Env,
        registry: &SchemaRegistry,
        issuer: Address,
        schema_uid: Uid,
        subject: Address,
        data: Vec<u8>,
        expiration: Option<u64>,
        ref_uid: Option<Uid>,
    ) -> (r: Result<Uid, Error>)
        requires
            old(self).wf(),
            old(self).serves(registry),
            old(self)@.attest_fits(registry@.schemas, issuer, schema_uid, data@),
        ensures
            final(self).wf(),
            exists|now: u64|
                {
                    let step = #[trigger] old(self)@.attest(
                        registry@.schemas,
                        now,
                        issuer,
                        schema_uid,
                        subject,
                        data@,
                        expiration,
                        ref_uid,
                    );
                    reads_ledger_time(env, now) && final(self)@ == step.0 && r == step.1
                },
            old(self)@.inv() ==> final(self)@.inv(),
            old(self)@.inv() && collision_free(
                old(self)@.stored_preimages().insert(
                    old(self)@.next_preimage(issuer, schema_uid, subject, data@, expiration, ref_uid),
                ),
            ) ==> (r matches Ok(uid) ==> !old(self)@.attestations.contains_key(uid)),
    {
        let now = read_ledger_time(env);
        self.attest_at(env, registry, now, issuer, schema_uid, subject, data, expiration, ref_uid)
    }

    /// Revokes an attestation at ledger time `now`. Only the issuer who made it
    /// may revoke, only if the schema is revocable and the attestation is not
    /// already revoked.
    pub fn revoke_at(
        &mut self,
        registry: &SchemaRegistry,
        now: u64,
        issuer: Address,
        attestation_uid: Uid,
    ) -> (r: Result<(), Error>)
        requires
            old(self).wf(),
            old(self).serves(registry),
        ensures
            final(self).wf(),
            final(self)@ == old(self)@.revoke(registry@.schemas, now, issuer, attestation_uid).0,
            r == old(self)@.revoke(registry@.schemas, now, issuer, attestation_uid).1,
            old(self)@.inv() ==> final(self)@.inv(),
    {
        let ghost old_state = self@;
        let mut attestation = match self.attestations.get(&attestation_uid) {
            Some(a) => a,
            None => {
                return Err(Error::AttestationNotFound);
            },
        };
        if !same_address(&attestation.issuer, &issuer) {
            return Err(Error::NotAuthorizedToRevoke);
        }
        if attestation.revoked {
            return Err(Error::AlreadyRevoked);
        }
        let schema = match self.lookup_schema(registry, &attestation.schema_uid) {
            Err(e) => {
                return Err(e);
            },
            Ok(None) => {
                return Err(Error::SchemaNotFound);
            },
            Ok(Some(s)) => s,
        };
        if !schema.revocable {
            return Err(Error::SchemaNotRevocable);
        }
        attestation.revoked = true;
        attestation.revocation_time = Some(now);
        let event = Revoked {
            schema_uid: attestation.schema_uid,
            attestation_uid,
            issuer,
            subject: attestation.subject,
            revocation_time: now,
        };
        self.attestations.insert(attestation_uid, attestation);
        self.events.push(AttestationEvent::Revoked(event));
        proof {
            if old_state.inv() {
                law_revoke_keeps_invariant(old_state, registry@.schemas, now, issuer, attestation_uid);
            }
        }
        Ok(())
    }

    /// Revokes an attestation at the current ledger time.
    pub fn revoke(
        &mut self,
        env: &Env,
        registry: &SchemaRegistry,
        issuer: Address,
        attestation_uid: Uid,
    ) -> (r: Result<(), Error>)
        requires
            old(self).wf(),
            old(self).serves(registry),
        ensures
            final(self).wf(),
            exists|now: u64|
                {
                    let step = #[trigger] old(self)@.revoke(
                        registry@.schemas,
                        now,
                        issuer,
                        attestation_uid,
                    );
                    reads_ledger_time(env, now) && final(self)@ == step.0 && r == step.1
                },
            old(self)@.inv() ==> final(self)@.inv(),
    {
        let now = read_ledger_time(env);
        self.revoke_at(registry, now, issuer, attestation_uid)
    }

    /// Reads an attestation by uid.
    pub fn get_attestation(&self, attestation_uid: Uid) -> (r: Option<Attestation>)
        requires
            self.wf(),
        ensures
            r is Some == self@.attestations.contains_key(attestation_uid),
            r is Some ==> r->0@ == self@.attestations[attestation_uid],
    {
        self.attestations.get(&attestation_uid)
    }

    /// Whether the attestation exists, is not revoked, and is not expired at
    /// ledger time `now`.
    pub fn is_valid_at(&self, now: u64, attestation_uid: Uid) -> (r: bool)
        requires
            self.wf(),
        ensures
            r == self@.valid_at(attestation_uid, now),
    {
        match self.attestations.get(&attestation_uid) {
            None => false,
            Some(a) => {
                if a.revoked {
                    return false;
                }
                match a.expiration {
                    None => true,
                    Some(exp) => exp > now,
                }
            },
        }
    }

    /// Whether the attestation exists, is not revoked, and is not expired at
    /// the current ledger time.
    pub fn is_valid(&self, env: &Env, attestation_uid: Uid) -> (r: bool)
        requires
            self.wf(),
        ensures
            exists|now: u64|
                reads_ledger_time(env, now) && r == #[trigger] self@.valid_at(attestation_uid, now),
    {
        let now = read_ledger_time(env);
        self.is_valid_at(now, attestation_uid)
    }

    /// The capped, most recent attestation uids of a subject, oldest first,
    /// as the host vector that holds them.
    pub fn attestations_for_subject(&self, env: &Env, subject: Address) -> (r: soroban_sdk::Vec<
        BytesN<32>,
    >)
        requires
            self.wf(),
        ensures
            index_uids(r) == self@.index_of(subject),
    {
        match self.subjects.get(&subject) {
            Some(list) => list.items,
            None => index_new(env),
        }
    }

    /// Puts a stored attestation back under its uid, as read from the ledger.
    pub fn load_attestation(&mut self, attestation_uid: Uid, attestation: Attestation)
        requires
            old(self).wf(),
        ensures
            final(self).wf(),
            final(self)@ == (AttestationState {
                attestations: old(self)@.attestations.insert(attestation_uid, attestation@),
                ..old(self)@
            }),
    {
        self.attestations.insert(attestation_uid, attestation);
    }

    /// Puts a stored subject index back, as read from the ledger.
    pub fn load_subject_index(&mut self, subject: Address, index: soroban_sdk::Vec<BytesN<32>>)
        requires
            old(self).wf(),
        ensures
            final(self).wf(),
            final(self)@ == (AttestationState {
                subjects: old(self)@.subjects.insert(subject, index_uids(index)),
                ..old(self)@
            }),
    {
        let ghost uids = index_uids(index);
        let list = SubjectIndex { items: index };
        assert(list@ == uids);
        self.subjects.insert(subject, list);
    }

    /// Puts a stored issuer nonce back, as read from the ledger.
    pub fn load_nonce(&mut self, issuer: Address, nonce: u64)
        requires
            old(self).wf(),
        ensures
            final(self).wf(),
            final(self)@ == (AttestationState {
                nonces: old(self)@.nonces.insert(issuer, nonce),
                ..old(self)@
            }),
    {
        self.nonces.insert(issuer, nonce);
    }

    /// Puts a stored schema count back, as read from the ledger.
    pub fn load_schema_count(&mut self, schema_uid: Uid, count: u64)
        requires
            old(self).wf(),
        ensures
            final(self).wf(),
            final(self)@ == (AttestationState {
                schema_counts: old(self)@.schema_counts.insert(schema_uid, count),
                ..old(self)@
            }),
    {
        self.schema_counts.insert(schema_uid, count);
    }

    /// The number of attestations ever issued under a schema.
    pub fn schema_attestation_count(&self, schema_uid: Uid) -> (n: u64)
        requires
            self.wf(),
        ensures
            n == self@.count_of(schema_uid),
    {
        match self.schema_counts.get(&schema_uid) {
            Some(c) => c,
            None => 0,
        }
    }
}

} // verus!
