use parsec_core::back::{BackEndHandler, BackEndHandlerBuilder, BuildError, Dispatcher, Provide};
use parsec_core::core_provider::{CoreProvider, CoreProviderBuilder};
use parsec_core::front::{Authenticate, DirectAuthenticator, FrontEndHandler, FrontEndHandlerBuilder};
use parsec_core::key_info::ApplicationName;
use parsec_core::operations::{
    ConvertResult, OpListAuthenticators, OpListOpcodes, OpListProviders, OpPing, ProtobufConverter,
    ProviderInfo, ResultListOpcodes, ResultPing,
};
use parsec_core::service_builder::{
    CoreSettings, KeyInfoManagerConfig, KeyInfoManagerType, ListenerConfig, ListenerType,
    ProviderConfig, ServiceBuilder, ServiceConfig,
};
use parsec_core::request::{Request, RequestHeader};
use parsec_core::requests::{AuthType, BodyType, Opcode, ProviderID};
use parsec_core::response::Response;
use parsec_core::status::ResponseStatus;

fn mbed_info() -> ProviderInfo {
    ProviderInfo {
        uuid: "1c1139dc-ad7c-47dc-ad6b-db6fdb466552".to_string(),
        description: "Mbed Crypto provider".to_string(),
        vendor: "Arm".to_string(),
        version_maj: 0,
        version_min: 1,
        version_rev: 0,
        id: ProviderID::MbedCrypto,
    }
}

fn core_provider() -> CoreProvider {
    CoreProviderBuilder::new()
        .with_wire_protocol_version(0, 1)
        .with_provider(mbed_info(), vec![Opcode::PsaGenerateKey, Opcode::PsaExportPublicKey])
        .with_authenticator_info(ServiceBuilder::direct_authenticator_info())
        .build()
        .unwrap()
}

fn core_backend(version_min: u8, version_maj: u8) -> BackEndHandler<CoreProvider, ProtobufConverter> {
    BackEndHandlerBuilder::new()
        .with_provider(core_provider())
        .with_converter(ProtobufConverter {})
        .with_provider_id(ProviderID::Core)
        .with_content_type(BodyType::Protobuf)
        .with_accept_type(BodyType::Protobuf)
        .with_version(version_min, version_maj)
        .build()
        .unwrap()
}

fn front_end(limit: usize) -> FrontEndHandler<CoreProvider, ProtobufConverter, DirectAuthenticator> {
    FrontEndHandlerBuilder::new()
        .with_dispatcher(Dispatcher::new(vec![core_backend(0, 1)]))
        .with_authenticator(AuthType::Direct, DirectAuthenticator {})
        .with_body_len_limit(limit)
        .build()
        .unwrap()
}

fn request(provider: u8, opcode: u16, auth_type: u8, body: Vec<u8>, auth: Vec<u8>) -> Request {
    let mut header = RequestHeader::new();
    header.version_maj = 1;
    header.version_min = 0;
    header.provider = provider;
    header.session = 0xabcd;
    header.content_type = 0;
    header.accept_type = 0;
    header.auth_type = auth_type;
    header.body_len = body.len() as u32;
    header.auth_len = auth.len() as u16;
    header.opcode = opcode;
    Request { header, body, auth }
}

fn send(front: &FrontEndHandler<CoreProvider, ProtobufConverter, DirectAuthenticator>, req: &Request) -> Response {
    let mut bytes = Vec::new();
    req.write_to_stream(&mut bytes);
    let out = front.handle_request(&bytes);
    Response::read_from_stream(&out).expect("response")
}

#[test]
fn ping_round_trip() {
    let front = front_end(1 << 20);
    let response = send(&front, &request(0, 1, 0, Vec::new(), Vec::new()));
    assert_eq!(response.header.status(), ResponseStatus::Success);
    assert_eq!(response.header.session, 0xabcd);
    assert_eq!(response.header.opcode, 1);
    let result = ProtobufConverter::decode_result(response.body().bytes(), Opcode::Ping).unwrap();
    assert_eq!(
        result,
        ConvertResult::Ping(ResultPing { wire_protocol_version_maj: 1, wire_protocol_version_min: 0 })
    );
}

#[test]
fn ping_with_direct_authentication() {
    let front = front_end(1 << 20);
    let response = send(&front, &request(0, 1, 1, Vec::new(), b"alice".to_vec()));
    assert_eq!(response.header.status(), ResponseStatus::Success);
}

#[test]
fn unknown_provider_is_wrong_provider() {
    let front = front_end(1 << 20);
    let response = send(&front, &request(99, 1, 0, Vec::new(), Vec::new()));
    assert_eq!(response.header.status(), ResponseStatus::WrongProviderID);
    assert!(response.body().is_empty());
}

#[test]
fn version_too_big() {
    let front = front_end(1 << 20);
    let mut req = request(0, 1, 0, Vec::new(), Vec::new());
    req.header.version_min = 1;
    let response = send(&front, &req);
    assert_eq!(response.header.status(), ResponseStatus::VersionTooBig);
    req.header.version_maj = 2;
    req.header.version_min = 0;
    assert_eq!(send(&front, &req).header.status(), ResponseStatus::VersionTooBig);
    req.header.version_maj = 0;
    req.header.version_min = 9;
    assert_eq!(send(&front, &req).header.status(), ResponseStatus::Success);
}

#[test]
fn oversize_body_through_front_end() {
    let front = front_end(1 << 20);
    let mut req = request(0, 1, 0, Vec::new(), Vec::new());
    req.header.body_len = 2 << 20;
    let mut bytes = Vec::new();
    req.write_to_stream(&mut bytes);
    let out = front.handle_request(&bytes);
    let response = Response::read_from_stream(&out).unwrap();
    assert_eq!(response.header.status(), ResponseStatus::BodyLenTooLarge);
    assert_eq!(response.header.session, 0);
    assert!(response.body().is_empty());
}

#[test]
fn garbage_gets_invalid_header() {
    let front = front_end(1 << 20);
    let out = front.handle_request(&[1, 2, 3, 4, 5, 6, 7, 8]);
    let response = Response::read_from_stream(&out).unwrap();
    assert_eq!(response.header.status(), ResponseStatus::InvalidHeader);
}

#[test]
fn unregistered_authenticator() {
    let front = front_end(1 << 20);
    let response = send(&front, &request(0, 1, 2, Vec::new(), Vec::new()));
    assert_eq!(response.header.status(), ResponseStatus::AuthenticatorNotRegistered);
}

#[test]
fn authentication_error() {
    let front = front_end(1 << 20);
    let response = send(&front, &request(0, 1, 1, Vec::new(), vec![0xff, 0xfe]));
    assert_eq!(response.header.status(), ResponseStatus::AuthenticationError);
    let response = send(&front, &request(0, 1, 1, Vec::new(), Vec::new()));
    assert_eq!(response.header.status(), ResponseStatus::AuthenticationError);
}

#[test]
fn direct_authenticator_reads_the_name() {
    let app = DirectAuthenticator {}.authenticate("😀 app".as_bytes()).unwrap();
    assert_eq!(app.get_name(), "😀 app");
}

#[test]
fn unknown_opcode() {
    let front = front_end(1 << 20);
    let response = send(&front, &request(0, 500, 0, Vec::new(), Vec::new()));
    assert_eq!(response.header.status(), ResponseStatus::OpcodeDoesNotExist);
}

#[test]
fn list_opcodes_through_service() {
    let front = front_end(1 << 20);
    let response = send(&front, &request(0, 9, 0, vec![0x08, 0x01], Vec::new()));
    assert_eq!(response.header.status(), ResponseStatus::Success);
    let result = ProtobufConverter::decode_result(response.body().bytes(), Opcode::ListOpcodes).unwrap();
    assert_eq!(
        result,
        ConvertResult::ListOpcodes(ResultListOpcodes {
            opcodes: vec![Opcode::PsaGenerateKey, Opcode::PsaExportPublicKey]
        })
    );
}

#[test]
fn core_provider_lists_itself_first() {
    let core = core_provider();
    let own = core.list_opcodes(OpListOpcodes { provider_id: ProviderID::Core }).unwrap();
    assert_eq!(
        own.opcodes,
        vec![Opcode::Ping, Opcode::ListProviders, Opcode::ListOpcodes, Opcode::ListAuthenticators]
    );
    assert_eq!(
        core.list_opcodes(OpListOpcodes { provider_id: ProviderID::Tpm }),
        Err(ResponseStatus::ProviderNotRegistered)
    );
    assert_eq!(core.ping(OpPing {}).unwrap().wire_protocol_version_maj, 1);
}

#[test]
fn is_capable_checks_in_order() {
    let backend = core_backend(0, 1);
    let mut req = request(1, 1, 0, Vec::new(), Vec::new());
    assert_eq!(backend.is_capable(&req), Err(ResponseStatus::WrongProviderID));
    req.header.provider = 0;
    req.header.content_type = 5;
    assert_eq!(backend.is_capable(&req), Err(ResponseStatus::ContentTypeNotSupported));
    req.header.content_type = 0;
    req.header.accept_type = 5;
    assert_eq!(backend.is_capable(&req), Err(ResponseStatus::AcceptTypeNotSupported));
    req.header.accept_type = 0;
    assert_eq!(backend.is_capable(&req), Ok(()));
}

#[test]
fn dispatcher_routes_by_provider() {
    let dispatcher = Dispatcher::new(vec![core_backend(0, 1)]);
    let req = request(0, 1, 0, Vec::new(), Vec::new());
    assert_eq!(dispatcher.route(&req.header), Some(0));
    let other = request(3, 1, 0, Vec::new(), Vec::new());
    assert_eq!(dispatcher.route(&other.header), None);
    let response = dispatcher.dispatch_request(other, None);
    assert_eq!(response.header.status(), ResponseStatus::WrongProviderID);
}

#[test]
fn bypass_to_dispatcher_pings() {
    let front = front_end(1 << 20);
    let response = front.bypass_to_dispatcher(request(0, 1, 0, Vec::new(), Vec::new()), ApplicationName::new("a".to_string()));
    assert_eq!(response.header.status(), ResponseStatus::Success);
}

#[test]
fn builder_reports_missing_parts() {
    let missing: Result<BackEndHandler<CoreProvider, ProtobufConverter>, BuildError> =
        BackEndHandlerBuilder::new().with_converter(ProtobufConverter {}).build();
    assert_eq!(missing.err(), Some(BuildError::ProviderMissing));
    let missing_version: Result<BackEndHandler<CoreProvider, ProtobufConverter>, BuildError> = BackEndHandlerBuilder::new()
        .with_provider(core_provider())
        .with_converter(ProtobufConverter {})
        .with_provider_id(ProviderID::Core)
        .with_content_type(BodyType::Protobuf)
        .with_accept_type(BodyType::Protobuf)
        .build();
    assert_eq!(missing_version.err(), Some(BuildError::VersionMissing));
    let no_auth: Result<FrontEndHandler<CoreProvider, ProtobufConverter, DirectAuthenticator>, BuildError> =
        FrontEndHandlerBuilder::new().with_dispatcher(Dispatcher::new(vec![])).build();
    assert_eq!(no_auth.err(), Some(BuildError::AuthenticatorsMissing));
    assert_eq!(CoreProviderBuilder::new().build().err(), Some(BuildError::VersionMissing));
}

#[test]
fn list_providers_core_first() {
    let front = front_end(1 << 20);
    let response = send(&front, &request(0, 8, 0, Vec::new(), Vec::new()));
    assert_eq!(response.header.status(), ResponseStatus::Success);
    match ProtobufConverter::decode_result(response.body().bytes(), Opcode::ListProviders).unwrap() {
        ConvertResult::ListProviders(list) => {
            assert_eq!(list.providers.len(), 2);
            assert_eq!(list.providers[0].id, ProviderID::Core);
            assert_eq!(list.providers[0].uuid, "47049873-2a43-4845-9d72-831eab668784");
            assert_eq!(list.providers[1], mbed_info());
        }
        other => panic!("unexpected result {:?}", other),
    }
}

#[test]
fn list_authenticators_in_order() {
    let core = core_provider();
    let list = core.list_authenticators(OpListAuthenticators {}).unwrap();
    assert_eq!(list.authenticators.len(), 1);
    assert_eq!(list.authenticators[0].id, AuthType::Direct);
    let body = ProtobufConverter::encode_result(&ConvertResult::ListAuthenticators(list.clone()));
    assert_eq!(
        ProtobufConverter::decode_result(&body, Opcode::ListAuthenticators),
        Ok(ConvertResult::ListAuthenticators(list))
    );
}

#[test]
fn provider_info_exact_encoding() {
    let info = ProviderInfo {
        uuid: "u".to_string(),
        description: String::new(),
        vendor: "é".to_string(),
        version_maj: 0,
        version_min: 2,
        version_rev: 0,
        id: ProviderID::Tpm,
    };
    let result = ConvertResult::ListProviders(parsec_core::operations::ResultListProviders { providers: vec![info] });
    let body = ProtobufConverter::encode_result(&result);
    assert_eq!(body, vec![0x0a, 0x0b, 0x0a, 0x01, b'u', 0x1a, 0x02, 0xc3, 0xa9, 0x28, 0x02, 0x38, 0x03]);
    assert_eq!(ProtobufConverter::decode_result(&body, Opcode::ListProviders), Ok(result));
    let empty = core_provider().list_providers(OpListProviders {}).unwrap();
    assert_eq!(empty.providers.len(), 2);
}

#[test]
fn provider_info_with_invalid_utf8_fails() {
    let body = vec![0x0a, 0x03, 0x0a, 0x01, 0xff];
    assert_eq!(
        ProtobufConverter::decode_result(&body, Opcode::ListProviders),
        Err(ResponseStatus::DeserializingBodyFailed)
    );
}

fn config(providers: Vec<ProviderConfig>, managers: Vec<KeyInfoManagerConfig>) -> ServiceConfig {
    ServiceConfig {
        core_settings: CoreSettings {
            thread_pool_size: None,
            idle_listener_sleep_duration: None,
            log_level: None,
            log_timestamp: None,
            body_len_limit: Some(64),
            log_error_details: None,
            allow_root: None,
        },
        listener: ListenerConfig { listener_type: ListenerType::DomainSocket, timeout: 200 },
        key_manager: Some(managers),
        provider: Some(providers),
    }
}

#[test]
fn provider_selection_keeps_first_of_each_kind_with_a_store() {
    let managers = vec![KeyInfoManagerConfig {
        name: "on-disk".to_string(),
        manager_type: KeyInfoManagerType::OnDisk,
        store_path: None,
    }];
    let providers = vec![
        ProviderConfig { provider_type: ProviderID::MbedCrypto, key_info_manager: "missing".to_string() },
        ProviderConfig { provider_type: ProviderID::MbedCrypto, key_info_manager: "on-disk".to_string() },
        ProviderConfig { provider_type: ProviderID::MbedCrypto, key_info_manager: "on-disk".to_string() },
        ProviderConfig { provider_type: ProviderID::Tpm, key_info_manager: "on-disk".to_string() },
    ];
    assert_eq!(ServiceBuilder::select_providers(&config(providers, managers)), vec![1, 3]);
}

#[test]
fn built_service_uses_configured_limit() {
    assert_eq!(
        ServiceBuilder::build_service(&config(Vec::new(), Vec::new()), Vec::new()).err(),
        Some(BuildError::ProviderMissing)
    );
    let front = ServiceBuilder::build_service(&config(Vec::new(), Vec::new()), vec![(mbed_info(), vec![Opcode::PsaSignHash])]).unwrap();
    let response = send(&front, &request(0, 1, 1, Vec::new(), b"alice".to_vec()));
    assert_eq!(response.header.status(), ResponseStatus::Success);
    let big = request(0, 1, 0, vec![0; 65], Vec::new());
    assert_eq!(send(&front, &big).header.status(), ResponseStatus::BodyLenTooLarge);
    assert_eq!(ServiceBuilder::body_len_limit(&config(Vec::new(), Vec::new()).core_settings), 64);
}

#[test]
fn store_path_defaults() {
    let mut manager = KeyInfoManagerConfig {
        name: "m".to_string(),
        manager_type: KeyInfoManagerType::OnDisk,
        store_path: None,
    };
    assert_eq!(ServiceBuilder::key_info_store_path(&manager), "/var/lib/parsec/mappings");
    manager.store_path = Some("/tmp/x".to_string());
    assert_eq!(ServiceBuilder::key_info_store_path(&manager), "/tmp/x");
}

#[test]
fn key_operation_needs_an_application() {
    let front = front_end(1 << 20);
    let body = vec![0x0a, 0x01, b'k'];
    let response = send(&front, &request(0, 7, 0, body.clone(), Vec::new()));
    assert_eq!(response.header.status(), ResponseStatus::NotAuthenticated);
    let response = send(&front, &request(0, 7, 1, body, b"alice".to_vec()));
    assert_eq!(response.header.status(), ResponseStatus::PsaErrorNotSupported);
    assert!(response.body().is_empty());
}

#[test]
fn undecodable_key_operation_body() {
    let front = front_end(1 << 20);
    let response = send(&front, &request(0, 3, 1, vec![0x0a, 0x05], b"alice".to_vec()));
    assert_eq!(response.header.status(), ResponseStatus::DeserializingBodyFailed);
}
