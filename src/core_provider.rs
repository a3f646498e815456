//! The Core provider: it answers the service's introspection operations
//! without touching any key.
use vstd::prelude::*;
use crate::back::{BuildError, Provide};
use crate::key_info::ApplicationName;
use crate::operations::{
    OperationView, ResultView, OpListKeys, OpListClients, OpKey, ResultKey,
    ResultListKeys, ResultListClients, AuthenticatorInfo, AuthenticatorInfoView, OpListAuthenticators, OpListOpcodes, OpListProviders,
    OpPing, ProviderInfo, ProviderInfoView, ResultListAuthenticators, ResultListOpcodes,
    ResultListProviders, ResultPing, authenticator_views, provider_views,
};
use crate::requests::{Opcode, ProviderID};
use crate::status::ResponseStatus;

verus! {

/// Major version of the wire protocol that the service speaks.
pub const WIRE_PROTOCOL_VERSION_MAJOR: u8 = 1;

/// Minor version of the wire protocol that the service speaks.
pub const WIRE_PROTOCOL_VERSION_MINOR: u8 = 0;

/// The operations that the Core provider serves.
pub open spec fn core_opcodes() -> Seq<Opcode> {
    seq![Opcode::Ping, Opcode::ListProviders, Opcode::ListOpcodes, Opcode::ListAuthenticators]
}

/// The Core provider.
pub struct CoreProvider {
    wire_protocol_version_maj: u8,
    wire_protocol_version_min: u8,
    providers: Vec<(ProviderInfo, Vec<Opcode>)>,
    authenticators: Vec<AuthenticatorInfo>,
}

/// A copy of a list of opcodes.
fn copy_opcodes(v: &Vec<Opcode>) -> (r: Vec<Opcode>)
    ensures
        r@ == v@,
{
    let mut out: Vec<Opcode> = Vec::new();
    let mut i: usize = 0;
    while i < v.len()
        invariant
            i <= v@.len(),
            out@ == v@.subrange(0, i as int),
        decreases v@.len() - i,
    {
        out.push(v[i]);
        i = i + 1;
        assert(out@ =~= v@.subrange(0, i as int));
    }
    assert(v@.subrange(0, i as int) =~= v@);
    out
}

/// A copy of a provider description.
fn copy_provider_info(p: &ProviderInfo) -> (r: ProviderInfo)
    ensures
        r@ == p@,
{
    ProviderInfo {
        uuid: p.uuid.clone(),
        description: p.description.clone(),
        vendor: p.vendor.clone(),
        version_maj: p.version_maj,
        version_min: p.version_min,
        version_rev: p.version_rev,
        id: p.id,
    }
}

/// A copy of an authenticator description.
fn copy_authenticator_info(a: &AuthenticatorInfo) -> (r: AuthenticatorInfo)
    ensures
        r@ == a@,
{
    AuthenticatorInfo {
        description: a.description.clone(),
        version_maj: a.version_maj,
        version_min: a.version_min,
        version_rev: a.version_rev,
        id: a.id,
    }
}

/// The views of the registered providers with their operations.
pub open spec fn registry_view(v: Seq<(ProviderInfo, Vec<Opcode>)>) -> Seq<(ProviderInfoView, Seq<Opcode>)> {
    v.map_values(|e: (ProviderInfo, Vec<Opcode>)| (e.0@, e.1@))
}

impl CoreProvider {
    /// The wire protocol version it reports, major then minor.
    pub closed spec fn version(&self) -> (u8, u8) {
        (self.wire_protocol_version_maj, self.wire_protocol_version_min)
    }

    /// The providers it knows, with their operations, in registration order.
    pub closed spec fn providers(&self) -> Seq<(ProviderInfoView, Seq<Opcode>)> {
        registry_view(self.providers@)
    }

    /// The authenticators it knows, in registration order.
    pub closed spec fn authenticators(&self) -> Seq<AuthenticatorInfoView> {
        authenticator_views(self.authenticators@)
    }

    /// The result of `Ping`: the wire protocol version.
    pub fn ping_result(&self) -> (r: ResultPing)
        ensures
            (r.wire_protocol_version_maj, r.wire_protocol_version_min) == self.version(),
    {
        ResultPing {
            wire_protocol_version_maj: self.wire_protocol_version_maj,
            wire_protocol_version_min: self.wire_protocol_version_min,
        }
    }

    /// The result of `ListProviders`: the description of every provider, in order.
    pub fn provider_infos(&self) -> (r: ResultListProviders)
        ensures
            provider_views(r.providers@) == self.providers().map_values(
                |e: (ProviderInfoView, Seq<Opcode>)| e.0,
            ),
    {
        let mut out: Vec<ProviderInfo> = Vec::new();
        let mut i: usize = 0;
        while i < self.providers.len()
            invariant
                i <= self.providers@.len(),
                provider_views(out@) == self.providers().subrange(0, i as int).map_values(
                    |e: (ProviderInfoView, Seq<Opcode>)| e.0,
                ),
            decreases self.providers@.len() - i,
        {
            let ghost before = out@;
            let info = copy_provider_info(&self.providers[i].0);
            let ghost iv = info@;
            out.push(info);
            assert(self.providers()[i as int].0 == iv);
            assert(provider_views(out@) =~= provider_views(before).push(iv));
            assert(self.providers().subrange(0, i + 1) =~= self.providers().subrange(0, i as int).push(self.providers()[i as int]));
            i = i + 1;
            assert(provider_views(out@) =~= self.providers().subrange(0, i as int).map_values(
                |e: (ProviderInfoView, Seq<Opcode>)| e.0,
            ));
        }
        assert(self.providers().subrange(0, i as int) =~= self.providers());
        ResultListProviders { providers: out }
    }

    /// The result of `ListAuthenticators`: the description of every
    /// authenticator, in registration order.
    pub fn authenticator_infos(&self) -> (r: ResultListAuthenticators)
        ensures
            authenticator_views(r.authenticators@) == self.authenticators(),
    {
        let mut out: Vec<AuthenticatorInfo> = Vec::new();
        let mut i: usize = 0;
        while i < self.authenticators.len()
            invariant
                i <= self.authenticators@.len(),
                authenticator_views(out@) == self.authenticators().subrange(0, i as int),
            decreases self.authenticators@.len() - i,
        {
            let ghost before = out@;
            let info = copy_authenticator_info(&self.authenticators[i]);
            let ghost iv = info@;
            out.push(info);
            assert(self.authenticators()[i as int] == iv);
            assert(authenticator_views(out@) =~= authenticator_views(before).push(iv));
            i = i + 1;
            assert(authenticator_views(out@) =~= self.authenticators().subrange(0, i as int));
        }
        assert(self.authenticators().subrange(0, i as int) =~= self.authenticators());
        ResultListAuthenticators { authenticators: out }
    }

    /// The result of `ListOpcodes`: the operations of the first registered
    /// provider of that id, or `ProviderNotRegistered`.
    pub fn opcodes_of(&self, provider_id: ProviderID) -> (r: Result<ResultListOpcodes, ResponseStatus>)
        ensures
            match r {
                Ok(res) => exists|i: int|
                    0 <= i < self.providers().len() && #[trigger] self.providers()[i].0.id == provider_id
                        && self.providers()[i].1 == res.opcodes@ && forall|j: int|
                        0 <= j < i ==> #[trigger] self.providers()[j].0.id != provider_id,
                Err(e) => e == ResponseStatus::ProviderNotRegistered && forall|j: int|
                    0 <= j < self.providers().len() ==> #[trigger] self.providers()[j].0.id != provider_id,
            },
    {
        let mut i: usize = 0;
        while i < self.providers.len()
            invariant
                i <= self.providers@.len(),
                self.providers().len() == self.providers@.len(),
                forall|j: int| 0 <= j < i ==> #[trigger] self.providers()[j].0.id != provider_id,
            decreases self.providers@.len() - i,
        {
            assert(self.providers()[i as int] == (self.providers@[i as int].0@, self.providers@[i as int].1@));
            if self.providers[i].0.id == provider_id {
                let opcodes = copy_opcodes(&self.providers[i].1);
                assert(self.providers()[i as int].0.id == provider_id);
                return Ok(ResultListOpcodes { opcodes });
            }
            i = i + 1;
        }
        Err(ResponseStatus::ProviderNotRegistered)
    }
}

/// The operations that a key-holding provider serves, which the Core provider does not.
pub open spec fn core_refuses(op: OperationView) -> bool {
    op is ListKeys || op is ListClients || op is Key
}

impl Provide for CoreProvider {
    open spec fn answers(&self, app: Option<Seq<char>>, op: OperationView, r: Result<ResultView, ResponseStatus>) -> bool {
        match op {
            OperationView::Ping => r == Ok::<_, ResponseStatus>(ResultView::Ping(self.version().0, self.version().1)),
            OperationView::ListProviders => r == Ok::<_, ResponseStatus>(
                ResultView::ListProviders(self.providers().map_values(|e: (ProviderInfoView, Seq<Opcode>)| e.0)),
            ),
            OperationView::ListAuthenticators => r == Ok::<_, ResponseStatus>(
                ResultView::ListAuthenticators(self.authenticators()),
            ),
            OperationView::ListOpcodes(p) => match r {
                Ok(ResultView::ListOpcodes(ops)) => exists|i: int|
                    0 <= i < self.providers().len() && #[trigger] self.providers()[i].0.id == p
                        && self.providers()[i].1 == ops && forall|j: int|
                        0 <= j < i ==> #[trigger] self.providers()[j].0.id != p,
                Err(e) => e == ResponseStatus::ProviderNotRegistered && forall|j: int|
                    0 <= j < self.providers().len() ==> #[trigger] self.providers()[j].0.id != p,
                _ => false,
            },
            _ => r == Err::<ResultView, _>(ResponseStatus::PsaErrorNotSupported),
        }
    }

    fn ping(&self, op: OpPing) -> (r: Result<ResultPing, ResponseStatus>) {
        Ok(self.ping_result())
    }

    fn list_providers(&self, op: OpListProviders) -> (r: Result<ResultListProviders, ResponseStatus>) {
        Ok(self.provider_infos())
    }

    fn list_opcodes(&self, op: OpListOpcodes) -> (r: Result<ResultListOpcodes, ResponseStatus>) {
        self.opcodes_of(op.provider_id)
    }

    fn list_authenticators(&self, op: OpListAuthenticators) -> (r: Result<
        ResultListAuthenticators,
        ResponseStatus,
    >) {
        Ok(self.authenticator_infos())
    }

    fn list_keys(&self, app_name: &ApplicationName, op: OpListKeys) -> (r: Result<
        ResultListKeys,
        ResponseStatus,
    >) {
        Err(ResponseStatus::PsaErrorNotSupported)
    }

    fn list_clients(&self, app_name: &ApplicationName, op: OpListClients) -> (r: Result<
        ResultListClients,
        ResponseStatus,
    >) {
        Err(ResponseStatus::PsaErrorNotSupported)
    }

    fn psa_generate_key(&self, app_name: &ApplicationName, op: OpKey) -> (r: Result<ResultKey, ResponseStatus>) {
        Err(ResponseStatus::PsaErrorNotSupported)
    }

    fn psa_import_key(&self, app_name: &ApplicationName, op: OpKey) -> (r: Result<ResultKey, ResponseStatus>) {
        Err(ResponseStatus::PsaErrorNotSupported)
    }

    fn psa_export_public_key(&self, app_name: &ApplicationName, op: OpKey) -> (r: Result<ResultKey, ResponseStatus>) {
        Err(ResponseStatus::PsaErrorNotSupported)
    }

    fn psa_destroy_key(&self, app_name: &ApplicationName, op: OpKey) -> (r: Result<ResultKey, ResponseStatus>) {
        Err(ResponseStatus::PsaErrorNotSupported)
    }

    fn psa_sign_hash(&self, app_name: &ApplicationName, op: OpKey) -> (r: Result<ResultKey, ResponseStatus>) {
        Err(ResponseStatus::PsaErrorNotSupported)
    }

    fn psa_verify_hash(&self, app_name: &ApplicationName, op: OpKey) -> (r: Result<ResultKey, ResponseStatus>) {
        Err(ResponseStatus::PsaErrorNotSupported)
    }

    fn psa_asymmetric_encrypt(&self, app_name: &ApplicationName, op: OpKey) -> (r: Result<ResultKey, ResponseStatus>) {
        Err(ResponseStatus::PsaErrorNotSupported)
    }

    fn psa_asymmetric_decrypt(&self, app_name: &ApplicationName, op: OpKey) -> (r: Result<ResultKey, ResponseStatus>) {
        Err(ResponseStatus::PsaErrorNotSupported)
    }
}

/// Builds the Core provider.
pub struct CoreProviderBuilder {
    version: Option<(u8, u8)>,
    providers: Vec<(ProviderInfo, Vec<Opcode>)>,
    authenticators: Vec<AuthenticatorInfo>,
}

impl CoreProviderBuilder {
    /// The version set so far, major then minor.
    pub closed spec fn spec_version(&self) -> Option<(u8, u8)> {
        self.version
    }

    /// The providers registered so far.
    pub closed spec fn providers(&self) -> Seq<(ProviderInfoView, Seq<Opcode>)> {
        registry_view(self.providers@)
    }

    /// The authenticators registered so far.
    pub closed spec fn authenticators(&self) -> Seq<AuthenticatorInfoView> {
        authenticator_views(self.authenticators@)
    }

    /// A builder with no version, no provider and no authenticator.
    pub fn new() -> (r: Self)
        ensures
            r.spec_version() is None,
            r.providers() == Seq::<(ProviderInfoView, Seq<Opcode>)>::empty(),
            r.authenticators() == Seq::<AuthenticatorInfoView>::empty(),
    {
        let r = CoreProviderBuilder { version: None, providers: Vec::new(), authenticators: Vec::new() };
        assert(r.providers() =~= Seq::<(ProviderInfoView, Seq<Opcode>)>::empty());
        assert(r.authenticators() =~= Seq::<AuthenticatorInfoView>::empty());
        r
    }

    /// Sets the wire protocol version to report.
    pub fn with_wire_protocol_version(self, version_min: u8, version_maj: u8) -> (r: Self)
        ensures
            r.spec_version() == Some((version_maj, version_min)),
            r.providers() == self.providers(),
            r.authenticators() == self.authenticators(),
    {
        CoreProviderBuilder { version: Some((version_maj, version_min)), ..self }
    }

    /// Registers a provider and the operations it serves.
    pub fn with_provider(self, info: ProviderInfo, opcodes: Vec<Opcode>) -> (r: Self)
        ensures
            r.spec_version() == self.spec_version(),
            r.providers() == self.providers().push((info@, opcodes@)),
            r.authenticators() == self.authenticators(),
    {
        let CoreProviderBuilder { version, mut providers, authenticators } = self;
        let ghost iv = info@;
        let ghost ov = opcodes@;
        providers.push((info, opcodes));
        let r = CoreProviderBuilder { version, providers, authenticators };
        assert(r.providers() =~= self.providers().push((iv, ov)));
        r
    }

    /// Registers the description of an authenticator.
    pub fn with_authenticator_info(self, info: AuthenticatorInfo) -> (r: Self)
        ensures
            r.spec_version() == self.spec_version(),
            r.providers() == self.providers(),
            r.authenticators() == self.authenticators().push(info@),
    {
        let CoreProviderBuilder { version, providers, mut authenticators } = self;
        let ghost iv = info@;
        authenticators.push(info);
        let r = CoreProviderBuilder { version, providers, authenticators };
        assert(r.authenticators() =~= self.authenticators().push(iv));
        r
    }

    /// The Core provider, which lists itself first, then the registered
    /// providers; or `VersionMissing`.
    pub fn build(self) -> (r: Result<CoreProvider, BuildError>)
        ensures
            match r {
                Ok(c) => self.spec_version() == Some(c.version()) && c.providers().len() == self.providers().len() + 1
                    && c.providers()[0].0.id == ProviderID::Core && c.providers()[0].1 == core_opcodes()
                    && c.providers().drop_first() == self.providers()
                    && c.authenticators() == self.authenticators(),
                Err(e) => e == BuildError::VersionMissing && self.spec_version() is None,
            },
    {
        let (maj, min) = match self.version {
            Some(v) => v,
            None => return Err(BuildError::VersionMissing),
        };
        let own = ProviderInfo {
            uuid: String::from_str("47049873-2a43-4845-9d72-831eab668784"),
            description: String::from_str(
                "Software provider that implements only administrative (i.e. no cryptographic) operations",
            ),
            vendor: String::new(),
            version_maj: 0,
            version_min: 1,
            version_rev: 0,
            id: ProviderID::Core,
        };
        let mut list: Vec<(ProviderInfo, Vec<Opcode>)> = Vec::new();
        list.push(
            (
                own,
                vec![Opcode::Ping, Opcode::ListProviders, Opcode::ListOpcodes, Opcode::ListAuthenticators],
            ),
        );
        let ghost first = registry_view(list@);
        let mut rest = self.providers;
        let ghost rest_view = registry_view(rest@);
        list.append(&mut rest);
        let c = CoreProvider {
            wire_protocol_version_maj: maj,
            wire_protocol_version_min: min,
            providers: list,
            authenticators: self.authenticators,
        };
        assert(c.providers() =~= first + rest_view);
        assert(c.providers().drop_first() =~= rest_view);
        Ok(c)
    }
}

} // verus!
