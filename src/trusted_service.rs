//! The Trusted Service provider's bookkeeping of key identifiers: on start it
//! drops the mappings whose identifier it cannot read and resumes numbering
//! after the highest identifier in use.
use vstd::prelude::*;
use crate::back::BuildError;
use crate::key_info::{ApplicationName, KeyTriple, KeyTripleView, OnDiskKeyIDManager, listed, listed_str, listed_app};
use crate::le::read32;
use crate::operations::ProviderInfo;
use crate::requests::{Opcode, ProviderID};
use crate::status::ResponseStatus;

verus! {

/// The text of the UUID parsed from some text, in lower-case hyphenated form,
/// if the text is a UUID.
pub uninterp spec fn uuid_parsed(s: Seq<char>) -> Option<Seq<char>>;

/// A lower-case hexadecimal digit.
pub open spec fn lower_hex_char(c: char) -> bool {
    ('0' <= c <= '9') || ('a' <= c <= 'f')
}

/// A UUID in lower-case hyphenated form: 36 characters, with hyphens at
/// 8, 13, 18 and 23 and lower-case hexadecimal digits elsewhere.
pub open spec fn hyphenated_uuid(s: Seq<char>) -> bool {
    &&& s.len() == 36
    &&& forall|i: int|
        0 <= i < 36 ==> if i == 8 || i == 13 || i == 18 || i == 23 {
            #[trigger] s[i] == '-'
        } else {
            lower_hex_char(s[i])
        }
}

/// Relies on `uuid::Uuid::parse_str`, and on the `Display` form of the parsed
/// UUID (lower-case, hyphenated); both depend on the text alone, and a UUID
/// already in that form reads back as itself.
#[verifier::external_body]
fn parse_uuid(s: &str) -> (r: Option<String>)
    ensures
        match r {
            Some(t) => uuid_parsed(s@) == Some(t@),
            None => uuid_parsed(s@) is None,
        },
        hyphenated_uuid(s@) ==> r is Some && r.unwrap()@ == s@,
{
    match uuid::Uuid::parse_str(s) {
        Ok(u) => Some(u.to_string()),
        Err(_) => None,
    }
}

/// The UUID assigned to the Trusted Service provider.
pub open spec fn trusted_service_uuid() -> Seq<char> {
    "71129441-508a-4da6-b6e8-7b98a777e4c0"@
}

/// The operations that the Trusted Service provider serves.
pub open spec fn trusted_service_opcodes() -> Seq<Opcode> {
    seq![
        Opcode::PsaDestroyKey,
        Opcode::PsaGenerateKey,
        Opcode::PsaSignHash,
        Opcode::PsaVerifyHash,
        Opcode::PsaImportKey,
        Opcode::PsaExportPublicKey,
        Opcode::PsaAsymmetricEncrypt,
        Opcode::PsaAsymmetricDecrypt,
    ]
}

/// The lowest identifier of a key that an application creates.
pub const PSA_KEY_ID_USER_MIN: u32 = 1;

/// Whether a stored key identifier is one of this provider's: four bytes,
/// least significant first.
pub open spec fn valid_key_id(id: Seq<u8>) -> bool {
    id.len() == 4
}

/// The mappings that survive the start of the provider: those of other
/// providers, and its own whose identifier it can read.
pub open spec fn kept(store: Map<KeyTripleView, Seq<u8>>, t: KeyTripleView) -> bool {
    store.contains_key(t) && (t.provider != ProviderID::TrustedService || valid_key_id(store[t]))
}

/// The Trusted Service provider.
pub struct Provider {
    key_info_store: OnDiskKeyIDManager,
    id_counter: u32,
}

impl Provider {
    /// The key-information store.
    pub closed spec fn store(&self) -> OnDiskKeyIDManager {
        self.key_info_store
    }

    /// The highest key identifier handed out so far.
    pub closed spec fn counter(&self) -> u32 {
        self.id_counter
    }

    /// The provider over a store: mappings of this provider whose identifier
    /// cannot be read are removed, and numbering resumes after the highest
    /// identifier in use (or after `PSA_KEY_ID_USER_MIN`).
    fn new(key_info_store: OnDiskKeyIDManager) -> (r: Provider)
        requires
            key_info_store.wf(),
        ensures
            r.store().wf(),
            forall|t: KeyTripleView|
                #[trigger] r.store()@.contains_key(t) == kept(key_info_store@, t),
            forall|t: KeyTripleView|
                #[trigger] r.store()@.contains_key(t) ==> r.store()@[t] == key_info_store@[t],
            r.counter() >= PSA_KEY_ID_USER_MIN,
            forall|t: KeyTripleView|
                #[trigger] r.store()@.contains_key(t) && t.provider == ProviderID::TrustedService
                    ==> read32(r.store()@[t], 0) <= r.counter(),
            r.counter() == PSA_KEY_ID_USER_MIN || exists|t: KeyTripleView|
                #[trigger] r.store()@.contains_key(t) && t.provider == ProviderID::TrustedService
                    && read32(r.store()@[t], 0) == r.counter(),
    {
        let mut store = key_info_store;
        let triples = store.get_all(ProviderID::TrustedService);
        let mut max_key_id: u32 = PSA_KEY_ID_USER_MIN;
        let mut to_remove: Vec<KeyTriple> = Vec::new();
        let mut i: usize = 0;
        while i < triples.len()
            invariant
                i <= triples@.len(),
                store.wf(),
                store@ == key_info_store@,
                max_key_id >= PSA_KEY_ID_USER_MIN,
                forall|t: KeyTripleView|
                    (store@.contains_key(t) && t.provider == ProviderID::TrustedService) <==> #[trigger] listed(triples@, t),
                forall|k: int|
                    0 <= k < i ==> #[trigger] listed(to_remove@, triples@[k]@) || (valid_key_id(store@[triples@[k]@])
                        && read32(store@[triples@[k]@], 0) <= max_key_id),
                forall|k: int| 0 <= k < to_remove@.len() ==> !valid_key_id(store@[#[trigger] to_remove@[k]@])
                    && store@.contains_key(to_remove@[k]@) && to_remove@[k]@.provider == ProviderID::TrustedService,
                max_key_id == PSA_KEY_ID_USER_MIN || exists|t: KeyTripleView|
                    #[trigger] store@.contains_key(t) && t.provider == ProviderID::TrustedService
                        && valid_key_id(store@[t]) && read32(store@[t], 0) == max_key_id,
            decreases triples@.len() - i,
        {
            let t = &triples[i];
            assert(listed(triples@, t@));
            let ghost before = to_remove@;
            match store.get(t) {
                Some(id) => {
                    if id.len() == 4 {
                        let key_id = crate::le::get_u32(id.as_slice(), 0);
                        if key_id > max_key_id {
                            max_key_id = key_id;
                            assert(store@.contains_key(t@) && t@.provider == ProviderID::TrustedService
                                && valid_key_id(store@[t@]) && read32(store@[t@], 0) == max_key_id);
                        }
                    } else {
                        to_remove.push(t.duplicate());
                        assert(to_remove@[to_remove@.len() - 1]@ == t@);
                    }
                },
                None => {},
            }
            proof {
                assert forall|k: int| 0 <= k < i + 1 implies #[trigger] listed(to_remove@, triples@[k]@) || (
                valid_key_id(store@[triples@[k]@]) && read32(store@[triples@[k]@], 0) <= max_key_id) by {
                    if listed(before, triples@[k]@) {
                        let m = choose|m: int| 0 <= m < before.len() && #[trigger] before[m]@ == triples@[k]@;
                        assert(to_remove@[m] == before[m]);
                    }
                    if k == i && !valid_key_id(store@[t@]) {
                        assert(to_remove@[to_remove@.len() - 1]@ == triples@[k]@);
                    }
                }
            }
            i = i + 1;
        }
        let ghost orig = store@;
        let mut j: usize = 0;
        while j < to_remove.len()
            invariant
                j <= to_remove@.len(),
                store.wf(),
                forall|k: int| 0 <= k < to_remove@.len() ==> !valid_key_id(orig[#[trigger] to_remove@[k]@])
                    && orig.contains_key(to_remove@[k]@) && to_remove@[k]@.provider == ProviderID::TrustedService,
                forall|t: KeyTripleView| #[trigger] store@.contains_key(t) == (orig.contains_key(t) && !(exists|k: int| 0 <= k < j && #[trigger] to_remove@[k]@ == t)),
                forall|t: KeyTripleView| #[trigger] store@.contains_key(t) ==> store@[t] == orig[t],
                max_key_id == PSA_KEY_ID_USER_MIN || exists|t: KeyTripleView|
                    #[trigger] orig.contains_key(t) && t.provider == ProviderID::TrustedService
                        && valid_key_id(orig[t]) && read32(orig[t], 0) == max_key_id,
            decreases to_remove@.len() - j,
        {
            store.remove(&to_remove[j]);
            proof {
                assert forall|t: KeyTripleView| #[trigger] store@.contains_key(t) == (orig.contains_key(t) && !(exists|k: int| 0 <= k < j + 1 && #[trigger] to_remove@[k]@ == t)) by {
                    if t == to_remove@[j as int]@ {
                        assert(exists|k: int| 0 <= k < j + 1 && #[trigger] to_remove@[k]@ == t);
                    } else if exists|k: int| 0 <= k < j + 1 && #[trigger] to_remove@[k]@ == t {
                        let k = choose|k: int| 0 <= k < j + 1 && #[trigger] to_remove@[k]@ == t;
                        assert(k < j);
                    }
                }
            }
            j = j + 1;
        }
        proof {
            assert forall|t: KeyTripleView| #[trigger] store@.contains_key(t) == kept(key_info_store@, t) by {
                if orig.contains_key(t) && t.provider == ProviderID::TrustedService {
                    assert(listed(triples@, t));
                    let k = choose|k: int| 0 <= k < triples@.len() && #[trigger] triples@[k]@ == t;
                    if listed(to_remove@, t) {
                        let m = choose|m: int| 0 <= m < to_remove@.len() && #[trigger] to_remove@[m]@ == t;
                    }
                }
                if exists|k: int| 0 <= k < j && #[trigger] to_remove@[k]@ == t {
                    let k = choose|k: int| 0 <= k < j && #[trigger] to_remove@[k]@ == t;
                }
            }
            assert forall|t: KeyTripleView|
                #[trigger] store@.contains_key(t) && t.provider == ProviderID::TrustedService
                    implies read32(store@[t], 0) <= max_key_id by {
                assert(listed(triples@, t));
                let k = choose|k: int| 0 <= k < triples@.len() && #[trigger] triples@[k]@ == t;
                if listed(to_remove@, t) {
                    let m = choose|m: int| 0 <= m < to_remove@.len() && #[trigger] to_remove@[m]@ == t;
                }
            }
        }
        let r = Provider { key_info_store: store, id_counter: max_key_id };
        proof {
            if max_key_id != PSA_KEY_ID_USER_MIN {
                let t = choose|t: KeyTripleView|
                    #[trigger] orig.contains_key(t) && t.provider == ProviderID::TrustedService
                        && valid_key_id(orig[t]) && read32(orig[t], 0) == max_key_id;
                assert(kept(key_info_store@, t));
                assert(store@.contains_key(t));
                assert(store@[t] == orig[t]);
                assert(r.store()@.contains_key(t) && t.provider == ProviderID::TrustedService
                    && read32(r.store()@[t], 0) == r.counter());
            }
        }
        r
    }

    /// The description of the provider, under its assigned UUID, and the
    /// operations it serves.
    pub fn describe(&self) -> (r: Result<(ProviderInfo, Vec<Opcode>), ResponseStatus>)
        ensures
            r matches Ok((info, ops)) && info.uuid@ == trusted_service_uuid() && info.id
                == ProviderID::TrustedService && info.version_maj == 0 && info.version_min == 1
                && info.version_rev == 0 && ops@ == trusted_service_opcodes(),
    {
        let text = "71129441-508a-4da6-b6e8-7b98a777e4c0";
        assert(text@ == trusted_service_uuid());
        proof {
            reveal_strlit("71129441-508a-4da6-b6e8-7b98a777e4c0");
            assert(hyphenated_uuid(text@));
        }
        let uuid = match parse_uuid(text) {
            Some(u) => u,
            None => return Err(ResponseStatus::InvalidEncoding),
        };
        Ok(Self::description_with_uuid(uuid))
    }

    /// The description of the provider under the given UUID text, and the
    /// operations it serves.
    pub fn description_with_uuid(uuid: String) -> (r: (ProviderInfo, Vec<Opcode>))
        ensures
            r.0.uuid@ == uuid@,
            r.0.id == ProviderID::TrustedService,
            r.0.version_maj == 0 && r.0.version_min == 1 && r.0.version_rev == 0,
            r.1@ == trusted_service_opcodes(),
    {
        let info = ProviderInfo {
            uuid,
            description: String::from_str(
                "Provider exposing functionality provided by the Crypto Trusted Service running in a Trusted Execution Environment",
            ),
            vendor: String::from_str("Arm"),
            version_maj: 0,
            version_min: 1,
            version_rev: 0,
            id: ProviderID::TrustedService,
        };
        let ops = vec![
            Opcode::PsaDestroyKey,
            Opcode::PsaGenerateKey,
            Opcode::PsaSignHash,
            Opcode::PsaVerifyHash,
            Opcode::PsaImportKey,
            Opcode::PsaExportPublicKey,
            Opcode::PsaAsymmetricEncrypt,
            Opcode::PsaAsymmetricDecrypt,
        ];
        assert(ops@ =~= trusted_service_opcodes());
        (info, ops)
    }

    /// A fresh key identifier, above every one handed out before; `None` once
    /// the identifiers are used up.
    pub fn next_key_id(&mut self) -> (r: Option<u32>)
        ensures
            final(self).store() == old(self).store(),
            match r {
                Some(id) => id == old(self).counter() + 1 && final(self).counter() == id,
                None => old(self).counter() == u32::MAX && final(self).counter() == old(self).counter(),
            },
    {
        if self.id_counter == u32::MAX {
            None
        } else {
            self.id_counter = self.id_counter + 1;
            Some(self.id_counter)
        }
    }

    /// The names of the keys that an application holds with this provider.
    pub fn list_keys(&self, app_name: &ApplicationName) -> (r: Vec<String>)
        requires
            self.store().wf(),
        ensures
            forall|k: Seq<char>|
                self.store()@.contains_key(
                    KeyTripleView { app: app_name@, provider: ProviderID::TrustedService, key: k },
                ) <==> #[trigger] listed_str(r@, k),
    {
        self.key_info_store.list_keys(app_name, ProviderID::TrustedService)
    }

    /// The applications that hold at least one key in the store, each once.
    pub fn list_clients(&self) -> (r: Vec<ApplicationName>)
        requires
            self.store().wf(),
        ensures
            forall|a: Seq<char>|
                (exists|t: KeyTripleView| #[trigger] self.store()@.contains_key(t) && t.app == a)
                    <==> #[trigger] listed_app(r@, a),
            forall|i: int, j: int| 0 <= i < j < r@.len() ==> r@[i]@ != r@[j]@,
    {
        self.key_info_store.list_clients()
    }

    /// The key-information store.
    pub fn key_info_store(&self) -> (r: &OnDiskKeyIDManager)
        ensures
            *r == self.store(),
    {
        &self.key_info_store
    }
}

/// Builds the Trusted Service provider.
pub struct ProviderBuilder {
    key_info_store: Option<OnDiskKeyIDManager>,
}

impl ProviderBuilder {
    /// The store set so far.
    pub closed spec fn spec_store(&self) -> Option<OnDiskKeyIDManager> {
        self.key_info_store
    }

    /// A builder with no store.
    pub fn new() -> (r: ProviderBuilder)
        ensures
            r.spec_store() is None,
    {
        ProviderBuilder { key_info_store: None }
    }

    /// Sets the key-information store.
    pub fn with_key_info_store(self, key_info_store: OnDiskKeyIDManager) -> (r: ProviderBuilder)
        ensures
            r.spec_store() == Some(key_info_store),
    {
        ProviderBuilder { key_info_store: Some(key_info_store) }
    }

    /// The provider over the store, as `Provider::new` starts it, or
    /// `KeyInfoStoreMissing`.
    pub fn build(self) -> (r: Result<Provider, BuildError>)
        requires
            self.spec_store() matches Some(s) ==> s.wf(),
        ensures
            match r {
                Ok(p) => self.spec_store() matches Some(s) && p.store().wf() && p.counter()
                    >= PSA_KEY_ID_USER_MIN && (forall|t: KeyTripleView|
                    #[trigger] p.store()@.contains_key(t) == kept(s@, t)) && (forall|t: KeyTripleView|
                    #[trigger] p.store()@.contains_key(t) ==> p.store()@[t] == s@[t]) && (forall|t: KeyTripleView|
                    #[trigger] p.store()@.contains_key(t) && t.provider == ProviderID::TrustedService
                        ==> read32(p.store()@[t], 0) <= p.counter()) && (p.counter() == PSA_KEY_ID_USER_MIN
                    || exists|t: KeyTripleView|
                    #[trigger] p.store()@.contains_key(t) && t.provider == ProviderID::TrustedService
                        && read32(p.store()@[t], 0) == p.counter()),
                Err(e) => e == BuildError::KeyInfoStoreMissing && self.spec_store() is None,
            },
    {
        match self.key_info_store {
            Some(store) => Ok(Provider::new(store)),
            None => Err(BuildError::KeyInfoStoreMissing),
        }
    }
}

} // verus!
