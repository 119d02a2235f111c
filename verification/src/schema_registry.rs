//! The schema registry: immutable, named, typed schemas, each stored under a
//! uid derived from its name, its definition and its authority.

use crate::host::{address_xdr, sha256, sha256_digest, string_xdr, symbol_xdr};
use crate::table::{Table, TableValue};
use crate::types::{append_bytes, copy_bytes, lemma_uid_of_view, uid_of, Address, Uid};
use crate::xdr::{schema_preimage, valid_symbol};
use soroban_sdk::Env;
use vstd::prelude::*;

verus! {

/// Longest schema definition that the registry stores, in bytes.
pub const MAX_DEFINITION_LEN: u32 = 512;

/// Why the schema registry refused a call.
#[derive(Clone, Copy, Debug, PartialEq, Eq, Structural)]
pub enum Error {
    /// The derived schema uid is already registered.
    SchemaAlreadyExists,
    /// The definition is longer than `MAX_DEFINITION_LEN` bytes.
    DefinitionTooLong,
    /// No schema is registered under the uid (reserved).
    SchemaNotFound,
}

impl Error {
    /// The stable numeric code of the error.
    pub fn code(&self) -> (c: u32)
        ensures
            c == match *self {
                Error::SchemaAlreadyExists => 1u32,
                Error::DefinitionTooLong => 2u32,
                Error::SchemaNotFound => 3u32,
            },
    {
        match self {
            Error::SchemaAlreadyExists => 1,
            Error::DefinitionTooLong => 2,
            Error::SchemaNotFound => 3,
        }
    }
}

/// A registered schema. Immutable once written.
#[derive(Clone, Debug, PartialEq, Eq)]
pub struct Schema {
    /// The address that registered the schema and namespaces its name.
    pub authority: Address,
    /// Short name of the schema; a symbol.
    pub name: String,
    /// Canonical field list of the schema, as bytes.
    pub definition: Vec<u8>,
    /// Whether attestations under the schema may be revoked.
    pub revocable: bool,
    /// Optional extension contract; stored only.
    pub resolver: Option<Address>,
}

/// The content of a schema.
pub struct SchemaModel {
    pub authority: Address,
    pub name: Seq<char>,
    pub definition: Seq<u8>,
    pub revocable: bool,
    pub resolver: Option<Address>,
}

impl View for Schema {
    type V = SchemaModel;

    open spec fn view(&self) -> SchemaModel {
        SchemaModel {
            authority: self.authority,
            name: self.name@,
            definition: self.definition@,
            revocable: self.revocable,
            resolver: self.resolver,
        }
    }
}

impl TableValue for Schema {
    fn duplicate(&self) -> (r: Self) {
        Schema {
            authority: self.authority,
            name: self.name.clone(),
            definition: copy_bytes(&self.definition),
            revocable: self.revocable,
            resolver: self.resolver,
        }
    }
}

/// Event recorded when a schema is registered.
#[derive(Clone, Debug, PartialEq, Eq)]
pub struct SchemaRegistered {
    pub schema_uid: Uid,
    pub authority: Address,
    pub name: String,
    pub revocable: bool,
}

/// The content of a registration event.
pub struct SchemaRegisteredModel {
    pub schema_uid: Uid,
    pub authority: Address,
    pub name: Seq<char>,
    pub revocable: bool,
}

impl View for SchemaRegistered {
    type V = SchemaRegisteredModel;

    open spec fn view(&self) -> SchemaRegisteredModel {
        SchemaRegisteredModel {
            schema_uid: self.schema_uid,
            authority: self.authority,
            name: self.name@,
            revocable: self.revocable,
        }
    }
}

/// The uid of a schema: the SHA-256 digest of
/// `xdr(name) || xdr(definition) || xdr(authority)`.
pub open spec fn schema_uid(name: Seq<char>, definition: Seq<u8>, authority: Address) -> Uid {
    uid_of(sha256_digest(schema_preimage(name, definition, authority)))
}

/// The state of a schema registry.
#[verifier::ext_equal]
pub struct RegistryState {
    /// The registry's own contract address.
    pub address: Address,
    /// Registered schemas by uid.
    pub schemas: Map<Uid, SchemaModel>,
    /// Registration events, oldest first.
    pub events: Seq<SchemaRegisteredModel>,
}

impl RegistryState {
    /// A registry with no schema.
    pub open spec fn initial(address: Address) -> RegistryState {
        RegistryState { address, schemas: Map::empty(), events: Seq::empty() }
    }

    /// Every schema is stored under the uid derived from its own name,
    /// definition and authority; its name is a symbol and its definition is
    /// within the bound.
    pub open spec fn inv(self) -> bool {
        forall|uid: Uid| #[trigger]
            self.schemas.contains_key(uid) ==> {
                let s = self.schemas[uid];
                &&& valid_symbol(s.name)
                &&& s.definition.len() <= MAX_DEFINITION_LEN
                &&& uid == schema_uid(s.name, s.definition, s.authority)
            }
    }

    /// What `register_schema` does: the state after the call and its result.
    pub open spec fn register(
        self,
        authority: Address,
        name: Seq<char>,
        definition: Seq<u8>,
        revocable: bool,
        resolver: Option<Address>,
    ) -> (RegistryState, Result<Uid, Error>) {
        if definition.len() > MAX_DEFINITION_LEN {
            (self, Err(Error::DefinitionTooLong))
        } else {
            let uid = schema_uid(name, definition, authority);
            if self.schemas.contains_key(uid) {
                (self, Err(Error::SchemaAlreadyExists))
            } else {
                let schema = SchemaModel { authority, name, definition, revocable, resolver };
                let event = SchemaRegisteredModel { schema_uid: uid, authority, name, revocable };
                (
                    RegistryState {
                        schemas: self.schemas.insert(uid, schema),
                        events: self.events.push(event),
                        ..self
                    },
                    Ok(uid),
                )
            }
        }
    }
}

/// Derives the schema uid:
/// `sha256(xdr(name) || xdr(definition) || xdr(authority))`.
pub fn derive_uid(env: &Env, name: &str, definition: &[u8], authority: &Address) -> (uid: Uid)
    requires
        valid_symbol(name@),
        definition@.len() <= u32::MAX,
    ensures
        uid == schema_uid(name@, definition@, *authority),
{
    let mut buf: Vec<u8> = Vec::new();
    append_bytes(&mut buf, &symbol_xdr(env, name));
    append_bytes(&mut buf, &string_xdr(env, definition));
    append_bytes(&mut buf, &address_xdr(env, authority));
    assert(buf@ =~= schema_preimage(name@, definition@, *authority));
    let uid = sha256(env, buf.as_slice());
    proof {
        lemma_uid_of_view(uid);
    }
    uid
}

/// A schema registry: the contract's address and its stored schemas.
pub struct SchemaRegistry {
    address: Address,
    schemas: Table<Uid, Schema>,
    events: Vec<SchemaRegistered>,
}

impl View for SchemaRegistry {
    type V = RegistryState;

    closed spec fn view(&self) -> RegistryState {
        RegistryState {
            address: self.address,
            schemas: self.schemas@,
            events: self.events@.map_values(|e: SchemaRegistered| e@),
        }
    }
}

impl SchemaRegistry {
    /// The registry's table is well formed.
    pub closed spec fn wf(&self) -> bool {
        self.schemas.wf()
    }

    /// A registry deployed at `address`, holding no schema.
    pub fn new(address: Address) -> (r: SchemaRegistry)
        ensures
            r.wf(),
            r@ == RegistryState::initial(address),
    {
        let r = SchemaRegistry { address, schemas: Table::new(), events: Vec::new() };
        assert(r@.events =~= Seq::<SchemaRegisteredModel>::empty());
        r
    }

    /// The registry's contract address.
    pub fn address(&self) -> (a: Address)
        ensures
            a == self@.address,
    {
        self.address
    }

    /// The events the registry has recorded, oldest first.
    pub fn events(&self) -> (e: &Vec<SchemaRegistered>)
        ensures
            e@.map_values(|x: SchemaRegistered| x@) == self@.events,
    {
        &self.events
    }

    /// Registers an immutable schema and returns its uid.
    ///
    /// Fails with `DefinitionTooLong` if the definition exceeds the byte
    /// limit, or `SchemaAlreadyExists` if the derived uid is already
    /// registered; a failed call changes nothing.
    pub fn register_schema(
        &mut self,
        env: &Env,
        authority: Address,
        name: String,
        definition: Vec<u8>,
        revocable: bool,
        resolver: Option<Address>,
    ) -> (r: Result<Uid, Error>)
        requires
            old(self).wf(),
            valid_symbol(name@),
        ensures
            final(self).wf(),
            final(self)@ == old(self)@.register(authority, name@, definition@, revocable, resolver).0,
            r == old(self)@.register(authority, name@, definition@, revocable, resolver).1,
    {
        if definition.len() > MAX_DEFINITION_LEN as usize {
            return Err(Error::DefinitionTooLong);
        }
        let uid = derive_uid(env, name.as_str(), definition.as_slice(), &authority);
        if self.schemas.contains(&uid) {
            return Err(Error::SchemaAlreadyExists);
        }
        let event = SchemaRegistered { schema_uid: uid, authority, name: name.clone(), revocable };
        let schema = Schema { authority, name, definition, revocable, resolver };
        let ghost old_state = self@;
        self.schemas.insert(uid, schema);
        self.events.push(event);
        proof {
            let new_state = old_state.register(authority, schema@.name, schema@.definition, revocable, resolver).0;
            assert(self@.events =~= new_state.events);
            assert(self@.schemas =~= new_state.schemas);
        }
        Ok(uid)
    }

    /// Reads a schema by uid.
    pub fn get_schema(&self, schema_uid: Uid) -> (r: Option<Schema>)
        requires
            self.wf(),
        ensures
            r is Some == self@.schemas.contains_key(schema_uid),
            r is Some ==> r->0@ == self@.schemas[schema_uid],
    {
        self.schemas.get(&schema_uid)
    }

    /// Puts a stored schema back under its uid, as read from the ledger.
    pub fn load(&mut self, schema_uid: Uid, schema: Schema)
        requires
            old(self).wf(),
        ensures
            final(self).wf(),
            final(self)@ == (RegistryState {
                schemas: old(self)@.schemas.insert(schema_uid, schema@),
                ..old(self)@
            }),
    {
        self.schemas.insert(schema_uid, schema);
    }
}

} // verus!
