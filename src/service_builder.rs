//! Assembling the service from its configuration.
use vstd::prelude::*;
use crate::back::{BackEndHandler, BackEndHandlerBuilder, BuildError, Dispatcher};
use crate::core_provider::{CoreProvider, CoreProviderBuilder, WIRE_PROTOCOL_VERSION_MAJOR, WIRE_PROTOCOL_VERSION_MINOR};
use crate::front::{DirectAuthenticator, FrontEndHandler, FrontEndHandlerBuilder, DEFAULT_BODY_LEN_LIMIT};
use crate::operations::{AuthenticatorInfo, ProtobufConverter, ProviderInfo};
use crate::requests::{AuthType, BodyType, Opcode, ProviderID};

verus! {

/// How much the service logs.
#[derive(PartialEq, Eq, Structural, Clone, Copy, Debug)]
pub enum LogLevel {
    Off,
    Error,
    Warn,
    Info,
    Debug,
    Trace,
}

/// Settings of the service as a whole.
#[derive(PartialEq, Eq, Structural, Clone, Copy, Debug)]
pub struct CoreSettings {
    pub thread_pool_size: Option<usize>,
    pub idle_listener_sleep_duration: Option<u64>,
    pub log_level: Option<LogLevel>,
    pub log_timestamp: Option<bool>,
    pub body_len_limit: Option<usize>,
    pub log_error_details: Option<bool>,
    pub allow_root: Option<bool>,
}

/// Kinds of listener.
#[derive(PartialEq, Eq, Structural, Clone, Copy, Debug)]
pub enum ListenerType {
    DomainSocket,
}

/// How the service listens for connections; `timeout` is in milliseconds.
#[derive(PartialEq, Eq, Structural, Clone, Copy, Debug)]
pub struct ListenerConfig {
    pub listener_type: ListenerType,
    pub timeout: u64,
}

/// Kinds of key-information store.
#[derive(PartialEq, Eq, Structural, Clone, Copy, Debug)]
pub enum KeyInfoManagerType {
    OnDisk,
}

/// A key-information store, named so that providers can refer to it.
#[derive(PartialEq, Eq, Clone, Debug)]
pub struct KeyInfoManagerConfig {
    pub name: String,
    pub manager_type: KeyInfoManagerType,
    pub store_path: Option<String>,
}

/// Where an on-disk store keeps its mappings when its configuration names no path.
pub open spec fn default_mappings_path() -> Seq<char> {
    "/var/lib/parsec/mappings"@
}

/// A provider and the name of the store it keeps its keys in.
#[derive(PartialEq, Eq, Clone, Debug)]
pub struct ProviderConfig {
    pub provider_type: ProviderID,
    pub key_info_manager: String,
}

/// The configuration of the service.
#[derive(PartialEq, Eq, Clone, Debug)]
pub struct ServiceConfig {
    pub core_settings: CoreSettings,
    pub listener: ListenerConfig,
    pub key_manager: Option<Vec<KeyInfoManagerConfig>>,
    pub provider: Option<Vec<ProviderConfig>>,
}

/// The names of the configured stores.
pub open spec fn manager_names(ms: Seq<KeyInfoManagerConfig>) -> Seq<Seq<char>> {
    ms.map_values(|m: KeyInfoManagerConfig| m.name@)
}

/// The indices of the provider configurations that are used, among the first
/// `n`: a provider is used where its store is configured and no provider of
/// the same kind is used before it.
pub open spec fn selected(ps: Seq<ProviderConfig>, names: Seq<Seq<char>>, n: nat) -> Seq<int>
    decreases n,
{
    if n == 0 {
        Seq::empty()
    } else {
        let prev = selected(ps, names, (n - 1) as nat);
        let i = n - 1;
        if names.contains(ps[i].key_info_manager@) && !(exists|k: int|
            0 <= k < prev.len() && #[trigger] ps[prev[k]].provider_type == ps[i].provider_type) {
            prev.push(i)
        } else {
            prev
        }
    }
}

/// Assembles the service.
#[derive(PartialEq, Eq, Structural, Clone, Copy, Debug)]
pub struct ServiceBuilder {}

impl ServiceBuilder {
    /// The limit on the bytes of body and authentication of a request: the
    /// configured one, or 1 MiB.
    pub fn body_len_limit(settings: &CoreSettings) -> (r: usize)
        ensures
            r == match settings.body_len_limit {
                Some(l) => l,
                None => DEFAULT_BODY_LEN_LIMIT,
            },
    {
        match settings.body_len_limit {
            Some(l) => l,
            None => DEFAULT_BODY_LEN_LIMIT,
        }
    }

    /// The directory of a configured store: its own path, or the default one.
    pub fn key_info_store_path(config: &KeyInfoManagerConfig) -> (r: String)
        ensures
            r@ == match config.store_path {
                Some(p) => p@,
                None => default_mappings_path(),
            },
    {
        match &config.store_path {
            Some(p) => p.clone(),
            None => {
                let d = String::from_str("/var/lib/parsec/mappings");
                d
            },
        }
    }

    /// Whether a store of that name is configured.
    fn has_manager(managers: &Vec<KeyInfoManagerConfig>, name: &String) -> (r: bool)
        ensures
            r == manager_names(managers@).contains(name@),
    {
        let mut i: usize = 0;
        while i < managers.len()
            invariant
                i <= managers@.len(),
                forall|j: int| 0 <= j < i ==> #[trigger] managers@[j].name@ != name@,
            decreases managers@.len() - i,
        {
            if managers[i].name == *name {
                assert(manager_names(managers@)[i as int] == name@);
                return true;
            }
            i = i + 1;
        }
        proof {
            if manager_names(managers@).contains(name@) {
                let k = choose|k: int| 0 <= k < manager_names(managers@).len() && manager_names(managers@)[k] == name@;
                assert(managers@[k].name@ == name@);
            }
        }
        false
    }

    /// The indices of the provider configurations that are used: each one
    /// whose store is configured, and the first of each kind.
    pub fn select_providers(config: &ServiceConfig) -> (r: Vec<usize>)
        ensures
            match (config.provider, config.key_manager) {
                (Some(ps), Some(ms)) => r@.map_values(|i: usize| i as int) == selected(ps@, manager_names(ms@), ps@.len()),
                _ => r@.len() == 0,
            },
    {
        let mut out: Vec<usize> = Vec::new();
        let (ps, ms) = match (&config.provider, &config.key_manager) {
            (Some(ps), Some(ms)) => (ps, ms),
            _ => return out,
        };
        let mut i: usize = 0;
        assert(out@.map_values(|i: usize| i as int) =~= selected(ps@, manager_names(ms@), 0));
        while i < ps.len()
            invariant
                i <= ps@.len(),
                out@.map_values(|i: usize| i as int) == selected(ps@, manager_names(ms@), i as nat),
                forall|k: int| 0 <= k < out@.len() ==> #[trigger] out@[k] < i,
            decreases ps@.len() - i,
        {
            let ghost prev = selected(ps@, manager_names(ms@), i as nat);
            let mut taken = false;
            let mut k: usize = 0;
            while k < out.len()
                invariant
                    k <= out@.len(),
                    out@.map_values(|i: usize| i as int) == prev,
                    forall|m: int| 0 <= m < out@.len() ==> #[trigger] out@[m] < i,
                    i < ps@.len(),
                    taken == exists|m: int| 0 <= m < k && #[trigger] ps@[prev[m]].provider_type == ps@[i as int].provider_type,
                decreases out@.len() - k,
            {
                assert(prev[k as int] == out@[k as int] as int);
                if ps[out[k]].provider_type == ps[i].provider_type {
                    taken = true;
                }
                proof {
                    if taken {
                        if ps@[prev[k as int]].provider_type == ps@[i as int].provider_type {
                            assert(exists|m: int| 0 <= m < k + 1 && #[trigger] ps@[prev[m]].provider_type == ps@[i as int].provider_type);
                        } else {
                            let m = choose|m: int| 0 <= m < k && #[trigger] ps@[prev[m]].provider_type == ps@[i as int].provider_type;
                            assert(0 <= m < k + 1);
                        }
                    } else {
                        assert forall|m: int| 0 <= m < k + 1 implies #[trigger] ps@[prev[m]].provider_type != ps@[i as int].provider_type by {
                            if m < k {
                            }
                        }
                    }
                }
                k = k + 1;
            }
            if !taken && Self::has_manager(ms, &ps[i].key_info_manager) {
                out.push(i);
                assert(out@.map_values(|i: usize| i as int) =~= prev.push(i as int));
            }
            i = i + 1;
        }
        out
    }

    /// The Core provider's handler, which lists the given providers after
    /// itself, and the given authenticators.
    pub fn build_core_backend(
        providers: Vec<(ProviderInfo, Vec<Opcode>)>,
        authenticators: Vec<AuthenticatorInfo>,
    ) -> (r: BackEndHandler<CoreProvider, ProtobufConverter>)
        ensures
            r.config().provider_id == ProviderID::Core,
            r.config().content_type == BodyType::Protobuf,
            r.config().accept_type == BodyType::Protobuf,
            r.config().version_maj == WIRE_PROTOCOL_VERSION_MAJOR,
            r.config().version_min == WIRE_PROTOCOL_VERSION_MINOR,
    {
        let mut builder = CoreProviderBuilder::new().with_wire_protocol_version(
            WIRE_PROTOCOL_VERSION_MINOR,
            WIRE_PROTOCOL_VERSION_MAJOR,
        );
        let mut rest = providers;
        while rest.len() > 0
            invariant
                builder.spec_version() == Some((WIRE_PROTOCOL_VERSION_MAJOR, WIRE_PROTOCOL_VERSION_MINOR)),
            decreases rest@.len(),
        {
            let (info, ops) = rest.remove(0);
            builder = builder.with_provider(info, ops);
        }
        let mut auths = authenticators;
        while auths.len() > 0
            invariant
                builder.spec_version() == Some((WIRE_PROTOCOL_VERSION_MAJOR, WIRE_PROTOCOL_VERSION_MINOR)),
            decreases auths@.len(),
        {
            let info = auths.remove(0);
            builder = builder.with_authenticator_info(info);
        }
        let core = builder.build().unwrap();
        let built = BackEndHandlerBuilder::new()
            .with_provider(core)
            .with_converter(ProtobufConverter {})
            .with_provider_id(ProviderID::Core)
            .with_content_type(BodyType::Protobuf)
            .with_accept_type(BodyType::Protobuf)
            .with_version(WIRE_PROTOCOL_VERSION_MINOR, WIRE_PROTOCOL_VERSION_MAJOR)
            .build();
        built.unwrap()
    }

    /// The description of the direct authenticator.
    pub fn direct_authenticator_info() -> (r: AuthenticatorInfo)
        ensures
            r.id == AuthType::Direct,
    {
        AuthenticatorInfo {
            description: String::from_str(
                "Direct authentication: the authentication bytes are the application name",
            ),
            version_maj: 0,
            version_min: 1,
            version_rev: 0,
            id: AuthType::Direct,
        }
    }

    /// The front end of a service whose only handler is the Core provider's,
    /// listing the given providers, with the direct authenticator and the
    /// configured body length limit; or `ProviderMissing` where no provider
    /// was built, as the service needs at least one.
    pub fn build_service(config: &ServiceConfig, providers: Vec<(ProviderInfo, Vec<Opcode>)>) -> (r: Result<FrontEndHandler<CoreProvider, ProtobufConverter, DirectAuthenticator>, BuildError>)
        ensures
            r is Err <==> providers@.len() == 0,
            r matches Err(e) ==> e == BuildError::ProviderMissing,
            r matches Ok(f) ==> f.spec_limit() == Self::spec_body_len_limit(config.core_settings)
                && f.auth_types() == seq![AuthType::Direct],
    {
        if providers.len() == 0 {
            return Err(BuildError::ProviderMissing);
        }
        let mut auths = Vec::new();
        auths.push(Self::direct_authenticator_info());
        let backend = Self::build_core_backend(providers, auths);
        let mut backends = Vec::new();
        backends.push(backend);
        let built = FrontEndHandlerBuilder::new()
            .with_authenticator(AuthType::Direct, DirectAuthenticator {})
            .with_dispatcher(Dispatcher::new(backends))
            .with_body_len_limit(Self::body_len_limit(&config.core_settings))
            .build();
        Ok(built.unwrap())
    }

    /// The limit that `body_len_limit` gives.
    pub open spec fn spec_body_len_limit(settings: CoreSettings) -> usize {
        match settings.body_len_limit {
            Some(l) => l,
            None => DEFAULT_BODY_LEN_LIMIT,
        }
    }
}

} // verus!
