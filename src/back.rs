//! The back end: per-provider handlers that check a request against their
//! configuration, decode its body, call the provider and encode the result;
//! and the dispatcher that routes each request to its provider's handler.
use vstd::prelude::*;
use crate::key_info::ApplicationName;
use crate::operations::{
    Convert, ConvertOperation, ConvertResult, OperationView, ResultView, OpPing, OpListOpcodes,
    ResultPing, ResultListOpcodes, OpListProviders, OpListAuthenticators, ResultListProviders,
    ResultListAuthenticators, OpListKeys, OpListClients, ResultListKeys, ResultListClients, OpKey,
    ResultKey,
};
use crate::request::{Request, RequestHeader};
use crate::requests::{BodyType, Opcode, ProviderID, provider_tag, body_type_tag, is_opcode_value, opcode_from_value, opcode_needs_identity};
use crate::response::{Response, ResponseHeader};
use crate::status::{ResponseStatus, status_code};

verus! {

/// A provider: it carries out operations. Each backend implements it.
///
/// `answers` says which outcomes the provider may give to an operation run
/// for an application (`None` for the operations that need no identity);
/// each method's outcome is one of them.
pub trait Provide {
    /// Whether `r` is an outcome the provider may give to `op` for `app`.
    spec fn answers(&self, app: Option<Seq<char>>, op: OperationView, r: Result<ResultView, ResponseStatus>) -> bool;

    /// Answers `Ping`.
    fn ping(&self, op: OpPing) -> (r: Result<ResultPing, ResponseStatus>)
        ensures
            self.answers(None, ConvertOperation::Ping(op)@, match r {
                Ok(x) => Ok(ConvertResult::Ping(x)@),
                Err(e) => Err(e),
            }),
    ;

    /// Answers `ListProviders`.
    fn list_providers(&self, op: OpListProviders) -> (r: Result<ResultListProviders, ResponseStatus>)
        ensures
            self.answers(None, ConvertOperation::ListProviders(op)@, match r {
                Ok(x) => Ok(ConvertResult::ListProviders(x)@),
                Err(e) => Err(e),
            }),
    ;

    /// Answers `ListOpcodes`.
    fn list_opcodes(&self, op: OpListOpcodes) -> (r: Result<ResultListOpcodes, ResponseStatus>)
        ensures
            self.answers(None, ConvertOperation::ListOpcodes(op)@, match r {
                Ok(x) => Ok(ConvertResult::ListOpcodes(x)@),
                Err(e) => Err(e),
            }),
    ;

    /// Answers `ListAuthenticators`.
    fn list_authenticators(&self, op: OpListAuthenticators) -> (r: Result<
        ResultListAuthenticators,
        ResponseStatus,
    >)
        ensures
            self.answers(None, ConvertOperation::ListAuthenticators(op)@, match r {
                Ok(x) => Ok(ConvertResult::ListAuthenticators(x)@),
                Err(e) => Err(e),
            }),
    ;

    /// Answers `ListKeys` for an application.
    fn list_keys(&self, app_name: &ApplicationName, op: OpListKeys) -> (r: Result<
        ResultListKeys,
        ResponseStatus,
    >)
        ensures
            self.answers(Some(app_name@), ConvertOperation::ListKeys(op)@, match r {
                Ok(x) => Ok(ConvertResult::ListKeys(x)@),
                Err(e) => Err(e),
            }),
    ;

    /// Answers `ListClients` for an application.
    fn list_clients(&self, app_name: &ApplicationName, op: OpListClients) -> (r: Result<
        ResultListClients,
        ResponseStatus,
    >)
        ensures
            self.answers(Some(app_name@), ConvertOperation::ListClients(op)@, match r {
                Ok(x) => Ok(ConvertResult::ListClients(x)@),
                Err(e) => Err(e),
            }),
    ;

    /// Answers `PsaGenerateKey` for an application.
    fn psa_generate_key(&self, app_name: &ApplicationName, op: OpKey) -> (r: Result<ResultKey, ResponseStatus>)
        ensures
            self.answers(Some(app_name@), ConvertOperation::Key(op)@, match r {
                Ok(x) => Ok(ConvertResult::Key(x)@),
                Err(e) => Err(e),
            }),
    ;

    /// Answers `PsaImportKey` for an application.
    fn psa_import_key(&self, app_name: &ApplicationName, op: OpKey) -> (r: Result<ResultKey, ResponseStatus>)
        ensures
            self.answers(Some(app_name@), ConvertOperation::Key(op)@, match r {
                Ok(x) => Ok(ConvertResult::Key(x)@),
                Err(e) => Err(e),
            }),
    ;

    /// Answers `PsaExportPublicKey` for an application.
    fn psa_export_public_key(&self, app_name: &ApplicationName, op: OpKey) -> (r: Result<ResultKey, ResponseStatus>)
        ensures
            self.answers(Some(app_name@), ConvertOperation::Key(op)@, match r {
                Ok(x) => Ok(ConvertResult::Key(x)@),
                Err(e) => Err(e),
            }),
    ;

    /// Answers `PsaDestroyKey` for an application.
    fn psa_destroy_key(&self, app_name: &ApplicationName, op: OpKey) -> (r: Result<ResultKey, ResponseStatus>)
        ensures
            self.answers(Some(app_name@), ConvertOperation::Key(op)@, match r {
                Ok(x) => Ok(ConvertResult::Key(x)@),
                Err(e) => Err(e),
            }),
    ;

    /// Answers `PsaSignHash` for an application.
    fn psa_sign_hash(&self, app_name: &ApplicationName, op: OpKey) -> (r: Result<ResultKey, ResponseStatus>)
        ensures
            self.answers(Some(app_name@), ConvertOperation::Key(op)@, match r {
                Ok(x) => Ok(ConvertResult::Key(x)@),
                Err(e) => Err(e),
            }),
    ;

    /// Answers `PsaVerifyHash` for an application.
    fn psa_verify_hash(&self, app_name: &ApplicationName, op: OpKey) -> (r: Result<ResultKey, ResponseStatus>)
        ensures
            self.answers(Some(app_name@), ConvertOperation::Key(op)@, match r {
                Ok(x) => Ok(ConvertResult::Key(x)@),
                Err(e) => Err(e),
            }),
    ;

    /// Answers `PsaAsymmetricEncrypt` for an application.
    fn psa_asymmetric_encrypt(&self, app_name: &ApplicationName, op: OpKey) -> (r: Result<ResultKey, ResponseStatus>)
        ensures
            self.answers(Some(app_name@), ConvertOperation::Key(op)@, match r {
                Ok(x) => Ok(ConvertResult::Key(x)@),
                Err(e) => Err(e),
            }),
    ;

    /// Answers `PsaAsymmetricDecrypt` for an application.
    fn psa_asymmetric_decrypt(&self, app_name: &ApplicationName, op: OpKey) -> (r: Result<ResultKey, ResponseStatus>)
        ensures
            self.answers(Some(app_name@), ConvertOperation::Key(op)@, match r {
                Ok(x) => Ok(ConvertResult::Key(x)@),
                Err(e) => Err(e),
            }),
    ;
}

/// The application handed to the provider: the request's for an operation on
/// keys, none otherwise.
pub open spec fn identity_for(opc: Opcode, app: Option<Seq<char>>) -> Option<Seq<char>> {
    if opcode_needs_identity(opc) {
        app
    } else {
        None
    }
}

/// The outcome of an operation, as the provider gave it.
pub open spec fn outcome_view(o: Result<ConvertResult, ResponseStatus>) -> Result<ResultView, ResponseStatus> {
    match o {
        Ok(x) => Ok(x@),
        Err(e) => Err(e),
    }
}

/// The application a request runs for, if any.
pub open spec fn app_view(a: Option<ApplicationName>) -> Option<Seq<char>> {
    match a {
        Some(n) => Some(n@),
        None => None,
    }
}

/// The `Success` header, with a body of `n` bytes, of the response to a
/// request with header `h`.
pub open spec fn success_header(h: RequestHeader, n: u32) -> ResponseHeader {
    ResponseHeader::spec_make(
        h.version_maj,
        h.version_min,
        h.provider,
        h.session,
        h.accept_type,
        n,
        h.opcode,
        status_code(ResponseStatus::Success),
    )
}

/// Whether `r` is the response to a request with header `h` whose operation
/// had outcome `o`: `Success` with the result encoded by `c` as body (or
/// `ResponseTooLarge` where that body cannot be framed), or the status-only
/// response with the failure's status.
pub open spec fn answered_with<C: Convert>(c: C, h: RequestHeader, o: Result<ResultView, ResponseStatus>, r: Response) -> bool {
    match o {
        Ok(res) => {
            let b = c.spec_body_from_result(res);
            if b.len() <= u32::MAX {
                r.header == success_header(h, b.len() as u32) && r.body@ == b
            } else {
                r.header == status_response(h, ResponseStatus::ResponseTooLarge) && r.body@.len() == 0
            }
        },
        Err(e) => r.header == status_response(h, e) && r.body@.len() == 0,
    }
}

/// What a back-end handler is configured with, beside its provider and converter.
pub struct HandlerConfig {
    pub provider_id: ProviderID,
    pub content_type: BodyType,
    pub accept_type: BodyType,
    pub version_maj: u8,
    pub version_min: u8,
}

/// Whether a handler so configured can handle a request with this header,
/// or the status that says why not.
pub open spec fn capability(c: HandlerConfig, h: RequestHeader) -> Result<(), ResponseStatus> {
    if h.provider != provider_tag(c.provider_id) {
        Err(ResponseStatus::WrongProviderID)
    } else if h.content_type != body_type_tag(c.content_type) {
        Err(ResponseStatus::ContentTypeNotSupported)
    } else if h.accept_type != body_type_tag(c.accept_type) {
        Err(ResponseStatus::AcceptTypeNotSupported)
    } else if h.version_maj > c.version_maj || (h.version_maj == c.version_maj && h.version_min
        > c.version_min) {
        Err(ResponseStatus::VersionTooBig)
    } else {
        Ok(())
    }
}

/// Of a header that names the handler's provider and encodings, the handler
/// refuses one whose version is above its own (major first, then minor) and
/// accepts one whose version is not.
pub proof fn lemma_version_check(c: HandlerConfig, h: RequestHeader)
    requires
        h.provider == provider_tag(c.provider_id),
        h.content_type == body_type_tag(c.content_type),
        h.accept_type == body_type_tag(c.accept_type),
    ensures
        (h.version_maj > c.version_maj || (h.version_maj == c.version_maj && h.version_min
            > c.version_min)) ==> capability(c, h) == Err::<(), _>(ResponseStatus::VersionTooBig),
        (h.version_maj < c.version_maj || (h.version_maj == c.version_maj && h.version_min
            <= c.version_min)) ==> capability(c, h) == Ok::<(), ResponseStatus>(()),
{
}

/// Handles the requests addressed to one provider.
pub struct BackEndHandler<P: Provide, C: Convert> {
    provider: P,
    converter: C,
    provider_id: ProviderID,
    content_type: BodyType,
    accept_type: BodyType,
    version_min: u8,
    version_maj: u8,
}

/// The status-only response to a request with header `h`.
pub open spec fn status_response(h: RequestHeader, s: ResponseStatus) -> ResponseHeader {
    Response::spec_from_request_header(h, s)
}

impl<P: Provide, C: Convert> BackEndHandler<P, C> {
    /// The handler's configuration.
    pub closed spec fn config(&self) -> HandlerConfig {
        HandlerConfig {
            provider_id: self.provider_id,
            content_type: self.content_type,
            accept_type: self.accept_type,
            version_maj: self.version_maj,
            version_min: self.version_min,
        }
    }

    /// The handler's converter.
    pub closed spec fn spec_converter(&self) -> C {
        self.converter
    }

    /// The handler's provider.
    pub closed spec fn spec_provider(&self) -> P {
        self.provider
    }

    /// Whether `r` is the handler's response to a request with header `h`,
    /// body `body`, run for `app`: `OpcodeDoesNotExist` for an unknown opcode,
    /// the converter's status for a body that does not decode,
    /// `NotAuthenticated` for an operation on keys without an application, and
    /// otherwise the response to one of the provider's outcomes.
    pub open spec fn spec_executed(&self, h: RequestHeader, body: Seq<u8>, app: Option<Seq<char>>, r: Response) -> bool {
        if !is_opcode_value(h.opcode) {
            r.header == status_response(h, ResponseStatus::OpcodeDoesNotExist) && r.body@.len() == 0
        } else {
            let opc = opcode_from_value(h.opcode);
            match self.spec_converter().spec_body_to_operation(body, opc) {
                Err(e) => r.header == status_response(h, e) && r.body@.len() == 0,
                Ok(op) => if opcode_needs_identity(opc) && app is None {
                    r.header == status_response(h, ResponseStatus::NotAuthenticated) && r.body@.len() == 0
                } else {
                    exists|o: Result<ResultView, ResponseStatus>|
                        #[trigger] self.spec_provider().answers(identity_for(opc, app), op, o)
                            && answered_with(self.spec_converter(), h, o, r)
                },
            }
        }
    }

    /// The provider the handler serves.
    pub fn provider_id(&self) -> (r: ProviderID)
        ensures
            r == self.config().provider_id,
    {
        self.provider_id
    }

    /// Whether the handler can handle the request, or the status that says why not.
    ///
    /// Fails with `WrongProviderID`, `ContentTypeNotSupported`,
    /// `AcceptTypeNotSupported` or `VersionTooBig`, checked in that order.
    pub fn is_capable(&self, request: &Request) -> (r: Result<(), ResponseStatus>)
        ensures
            r == capability(self.config(), request.header),
    {
        let header = &request.header;
        if header.provider != self.provider_id.to_u8() {
            Err(ResponseStatus::WrongProviderID)
        } else if header.content_type != self.content_type.to_u8() {
            Err(ResponseStatus::ContentTypeNotSupported)
        } else if header.accept_type != self.accept_type.to_u8() {
            Err(ResponseStatus::AcceptTypeNotSupported)
        } else if header.version_maj > self.version_maj || (header.version_maj == self.version_maj
            && header.version_min > self.version_min) {
            Err(ResponseStatus::VersionTooBig)
        } else {
            Ok(())
        }
    }

    /// The response to a request with header `header` whose operation had
    /// the outcome `outcome`.
    pub fn result_to_response(&self, outcome: Result<ConvertResult, ResponseStatus>, header: &RequestHeader) -> (r:
        Response)
        ensures
            r.wf(),
            answered_with(self.spec_converter(), *header, outcome_view(outcome), r),
    {
        match outcome {
            Ok(result) => {
                let body = match self.converter.body_from_result(&result) {
                    Ok(b) => b,
                    Err(_) => {
                        proof {
                            assert(false);
                        }
                        Vec::new()
                    },
                };
                if body.len() > 0xffff_ffff {
                    return Response::from_request_header(header, ResponseStatus::ResponseTooLarge);
                }
                let mut response = Response::from_request_header(header, ResponseStatus::Success);
                response.set_body(crate::response::ResponseBody::from_bytes(body));
                response
            },
            Err(status) => Response::from_request_header(header, status),
        }
    }

    /// Decodes the body of the request, hands the operation to the provider
    /// (with the application for operations on keys), and encodes its outcome
    /// into the response, as `spec_executed` says.
    pub fn execute_request(&self, request: Request, app_name: Option<ApplicationName>) -> (r:
        Response)
        ensures
            r.wf(),
            self.spec_executed(request.header, request.body@, app_view(app_name), r),
    {
        let header = request.header;
        let ghost body = request.body@;
        let ghost app = app_view(app_name);
        let opcode = match Opcode::from_u16(header.opcode) {
            Some(o) => o,
            None => return Response::from_request_header(&header, ResponseStatus::OpcodeDoesNotExist),
        };
        let operation = match self.converter.body_to_operation(request.body.as_slice(), opcode) {
            Ok(op) => op,
            Err(status) => return Response::from_request_header(&header, status),
        };
        let ghost opv = operation@;
        if opcode.needs_identity() && app_name.is_none() {
            return Response::from_request_header(&header, ResponseStatus::NotAuthenticated);
        }
        let outcome = match operation {
            ConvertOperation::Ping(op) => match self.provider.ping(op) {
                Ok(x) => Ok(ConvertResult::Ping(x)),
                Err(e) => Err(e),
            },
            ConvertOperation::ListProviders(op) => match self.provider.list_providers(op) {
                Ok(x) => Ok(ConvertResult::ListProviders(x)),
                Err(e) => Err(e),
            },
            ConvertOperation::ListOpcodes(op) => match self.provider.list_opcodes(op) {
                Ok(x) => Ok(ConvertResult::ListOpcodes(x)),
                Err(e) => Err(e),
            },
            ConvertOperation::ListAuthenticators(op) => match self.provider.list_authenticators(op) {
                Ok(x) => Ok(ConvertResult::ListAuthenticators(x)),
                Err(e) => Err(e),
            },
            ConvertOperation::ListKeys(op) => {
                let a = app_name.as_ref().unwrap();
                match self.provider.list_keys(a, op) {
                    Ok(x) => Ok(ConvertResult::ListKeys(x)),
                    Err(e) => Err(e),
                }
            },
            ConvertOperation::ListClients(op) => {
                let a = app_name.as_ref().unwrap();
                match self.provider.list_clients(a, op) {
                    Ok(x) => Ok(ConvertResult::ListClients(x)),
                    Err(e) => Err(e),
                }
            },
            ConvertOperation::Key(op) => {
                let a = app_name.as_ref().unwrap();
                let answer = match opcode {
                    Opcode::PsaGenerateKey => self.provider.psa_generate_key(a, op),
                    Opcode::PsaImportKey => self.provider.psa_import_key(a, op),
                    Opcode::PsaExportPublicKey => self.provider.psa_export_public_key(a, op),
                    Opcode::PsaDestroyKey => self.provider.psa_destroy_key(a, op),
                    Opcode::PsaSignHash => self.provider.psa_sign_hash(a, op),
                    Opcode::PsaVerifyHash => self.provider.psa_verify_hash(a, op),
                    Opcode::PsaAsymmetricEncrypt => self.provider.psa_asymmetric_encrypt(a, op),
                    _ => self.provider.psa_asymmetric_decrypt(a, op),
                };
                match answer {
                    Ok(x) => Ok(ConvertResult::Key(x)),
                    Err(e) => Err(e),
                }
            },
        };
        let r = self.result_to_response(outcome, &header);
        proof {
            assert(self.spec_provider().answers(identity_for(opcode, app), opv, outcome_view(outcome)));
        }
        r
    }
}

/// Builds a back-end handler, one part at a time.
pub struct BackEndHandlerBuilder<P: Provide, C: Convert> {
    provider: Option<P>,
    converter: Option<C>,
    provider_id: Option<ProviderID>,
    content_type: Option<BodyType>,
    accept_type: Option<BodyType>,
    version_min: Option<u8>,
    version_maj: Option<u8>,
}

/// What is missing to build a component.
#[derive(PartialEq, Eq, Structural, Clone, Copy, Debug)]
pub enum BuildError {
    ProviderMissing,
    ConverterMissing,
    ProviderIdMissing,
    ContentTypeMissing,
    AcceptTypeMissing,
    VersionMissing,
    DispatcherMissing,
    AuthenticatorsMissing,
    KeyInfoStoreMissing,
}

impl<P: Provide, C: Convert> BackEndHandlerBuilder<P, C> {
    /// The parts set so far: provider id, content type, accept type, version.
    pub closed spec fn parts(&self) -> (Option<ProviderID>, Option<BodyType>, Option<BodyType>, Option<(u8, u8)>) {
        (
            self.provider_id,
            self.content_type,
            self.accept_type,
            match (self.version_maj, self.version_min) {
                (Some(a), Some(b)) => Some((a, b)),
                _ => None,
            },
        )
    }

    /// Whether the provider and the converter are set.
    pub closed spec fn has_provider_and_converter(&self) -> (bool, bool) {
        (self.provider is Some, self.converter is Some)
    }

    /// A builder with nothing set.
    pub fn new() -> (r: Self)
        ensures
            r.parts() == (None::<ProviderID>, None::<BodyType>, None::<BodyType>, None::<(u8, u8)>),
            r.has_provider_and_converter() == (false, false),
    {
        BackEndHandlerBuilder {
            provider: None,
            converter: None,
            provider_id: None,
            content_type: None,
            accept_type: None,
            version_min: None,
            version_maj: None,
        }
    }

    /// Sets the provider.
    pub fn with_provider(self, provider: P) -> (r: Self)
        ensures
            r.parts() == self.parts(),
            r.has_provider_and_converter() == (true, self.has_provider_and_converter().1),
    {
        BackEndHandlerBuilder { provider: Some(provider), ..self }
    }

    /// Sets the converter.
    pub fn with_converter(self, converter: C) -> (r: Self)
        ensures
            r.parts() == self.parts(),
            r.has_provider_and_converter() == (self.has_provider_and_converter().0, true),
    {
        BackEndHandlerBuilder { converter: Some(converter), ..self }
    }

    /// Sets the provider id.
    pub fn with_provider_id(self, provider_id: ProviderID) -> (r: Self)
        ensures
            r.parts() == (Some(provider_id), self.parts().1, self.parts().2, self.parts().3),
            r.has_provider_and_converter() == self.has_provider_and_converter(),
    {
        BackEndHandlerBuilder { provider_id: Some(provider_id), ..self }
    }

    /// Sets the content type.
    pub fn with_content_type(self, content_type: BodyType) -> (r: Self)
        ensures
            r.parts() == (self.parts().0, Some(content_type), self.parts().2, self.parts().3),
            r.has_provider_and_converter() == self.has_provider_and_converter(),
    {
        BackEndHandlerBuilder { content_type: Some(content_type), ..self }
    }

    /// Sets the accept type.
    pub fn with_accept_type(self, accept_type: BodyType) -> (r: Self)
        ensures
            r.parts() == (self.parts().0, self.parts().1, Some(accept_type), self.parts().3),
            r.has_provider_and_converter() == self.has_provider_and_converter(),
    {
        BackEndHandlerBuilder { accept_type: Some(accept_type), ..self }
    }

    /// Sets the highest wire protocol version handled.
    pub fn with_version(self, version_min: u8, version_maj: u8) -> (r: Self)
        ensures
            r.parts() == (self.parts().0, self.parts().1, self.parts().2, Some((version_maj, version_min))),
            r.has_provider_and_converter() == self.has_provider_and_converter(),
    {
        BackEndHandlerBuilder { version_min: Some(version_min), version_maj: Some(version_maj), ..self }
    }

    /// The handler, or the first part that is missing.
    pub fn build(self) -> (r: Result<BackEndHandler<P, C>, BuildError>)
        ensures
            !self.has_provider_and_converter().0 ==> r == Err::<BackEndHandler<P, C>, _>(BuildError::ProviderMissing),
            match r {
                Ok(h) => self.parts() == (Some(h.config().provider_id), Some(h.config().content_type), Some(h.config().accept_type), Some((h.config().version_maj, h.config().version_min))),
                Err(e) => e == BuildError::ProviderMissing && !self.has_provider_and_converter().0
                    || e == BuildError::ConverterMissing && self.has_provider_and_converter().0 && !self.has_provider_and_converter().1
                    || e == BuildError::ProviderIdMissing && self.parts().0 is None
                    || e == BuildError::ContentTypeMissing && self.parts().1 is None
                    || e == BuildError::AcceptTypeMissing && self.parts().2 is None
                    || e == BuildError::VersionMissing && self.parts().3 is None,
            },
            r is Ok <==> (self.has_provider_and_converter() == (true, true) && self.parts().0 is Some && self.parts().1 is Some && self.parts().2 is Some && self.parts().3 is Some),
    {
        let provider = match self.provider {
            Some(p) => p,
            None => return Err(BuildError::ProviderMissing),
        };
        let converter = match self.converter {
            Some(c) => c,
            None => return Err(BuildError::ConverterMissing),
        };
        let provider_id = match self.provider_id {
            Some(p) => p,
            None => return Err(BuildError::ProviderIdMissing),
        };
        let content_type = match self.content_type {
            Some(c) => c,
            None => return Err(BuildError::ContentTypeMissing),
        };
        let accept_type = match self.accept_type {
            Some(a) => a,
            None => return Err(BuildError::AcceptTypeMissing),
        };
        let (version_maj, version_min) = match (self.version_maj, self.version_min) {
            (Some(a), Some(b)) => (a, b),
            _ => return Err(BuildError::VersionMissing),
        };
        Ok(BackEndHandler { provider, converter, provider_id, content_type, accept_type, version_min, version_maj })
    }
}

/// Routes each request to the handler of the provider it names.
pub struct Dispatcher<P: Provide, C: Convert> {
    backends: Vec<BackEndHandler<P, C>>,
}

impl<P: Provide, C: Convert> Dispatcher<P, C> {
    /// The handlers, in order.
    pub closed spec fn handlers(&self) -> Seq<BackEndHandler<P, C>> {
        self.backends@
    }

    /// The configurations of the handlers, in order.
    pub open spec fn configs(&self) -> Seq<HandlerConfig> {
        self.handlers().map_values(|b: BackEndHandler<P, C>| b.config())
    }

    /// Whether `r` is the dispatcher's response to a request with header `h`
    /// and body `body`, run for `app`: `WrongProviderID` where no handler
    /// serves the provider it names; else, with the first handler that does,
    /// that handler's capability status, or its response.
    pub open spec fn spec_dispatched(&self, h: RequestHeader, body: Seq<u8>, app: Option<Seq<char>>, r: Response) -> bool {
        &&& (forall|j: int| 0 <= j < self.configs().len() ==> provider_tag(
            #[trigger] self.configs()[j].provider_id) != h.provider) ==> (r.header
            == status_response(h, ResponseStatus::WrongProviderID) && r.body@.len() == 0)
        &&& forall|i: int|
            0 <= i < self.configs().len() && provider_tag(#[trigger] self.configs()[i].provider_id)
                == h.provider && (forall|j: int| 0 <= j < i ==> provider_tag(
                #[trigger] self.configs()[j].provider_id) != h.provider) ==> match capability(
                self.configs()[i],
                h,
            ) {
                Err(e) => r.header == status_response(h, e) && r.body@.len() == 0,
                Ok(_) => self.handlers()[i].spec_executed(h, body, app, r),
            }
    }

    /// A dispatcher over the given handlers.
    pub fn new(backends: Vec<BackEndHandler<P, C>>) -> (r: Self)
        ensures
            r.handlers() == backends@,
    {
        Dispatcher { backends }
    }

    /// The index of the first handler whose provider is the one the header names.
    pub fn route(&self, header: &RequestHeader) -> (r: Option<usize>)
        ensures
            match r {
                Some(i) => i < self.configs().len() && provider_tag(self.configs()[i as int].provider_id)
                    == header.provider && forall|j: int| 0 <= j < i ==> provider_tag(
                    #[trigger] self.configs()[j].provider_id) != header.provider,
                None => forall|j: int| 0 <= j < self.configs().len() ==> provider_tag(
                    #[trigger] self.configs()[j].provider_id) != header.provider,
            },
    {
        let mut i: usize = 0;
        while i < self.backends.len()
            invariant
                i <= self.backends@.len(),
                self.configs().len() == self.backends@.len(),
                forall|j: int| 0 <= j < i ==> provider_tag(#[trigger] self.configs()[j].provider_id)
                    != header.provider,
            decreases self.backends@.len() - i,
        {
            assert(self.configs()[i as int] == self.backends@[i as int].config());
            if self.backends[i].provider_id().to_u8() == header.provider {
                return Some(i);
            }
            i = i + 1;
        }
        None
    }

    /// Hands the request to the handler of the provider it names.
    ///
    /// Where no handler serves that provider the response is `WrongProviderID`;
    /// where the handler cannot handle the request, the status it gives.
    pub fn dispatch_request(&self, request: Request, app_name: Option<ApplicationName>) -> (r:
        Response)
        ensures
            r.wf(),
            self.spec_dispatched(request.header, request.body@, app_view(app_name), r),
    {
        match self.route(&request.header) {
            None => Response::from_request_header(&request.header, ResponseStatus::WrongProviderID),
            Some(i) => {
                let backend = &self.backends[i];
                assert(self.configs()[i as int] == backend.config());
                assert(self.handlers()[i as int] == *backend);
                match backend.is_capable(&request) {
                    Err(status) => Response::from_request_header(&request.header, status),
                    Ok(()) => backend.execute_request(request, app_name),
                }
            },
        }
    }
}

} // verus!
