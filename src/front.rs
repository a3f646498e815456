//! The front end: it reads one request from the bytes of a connection,
//! authenticates it, hands it to the dispatcher and gives back the bytes of
//! the response.
use vstd::prelude::*;
use vstd::utf8::{valid_utf8, decode_utf8};
use crate::back::{BuildError, Dispatcher, Provide, status_response};
use crate::operations::Convert;
use crate::key_info::ApplicationName;
use crate::mapping::string_from_utf8;
use crate::request::{Request, RequestHeader, parse_request};
use crate::requests::{AuthType, auth_type_tag};
use crate::response::{Response, ResponseHeader, header_bytes};
use crate::status::{ResponseStatus, status_code};

verus! {

/// Default limit on the bytes of body and authentication of a request: 1 MiB.
pub const DEFAULT_BODY_LEN_LIMIT: usize = 1048576;

/// An authenticator: it turns the authentication bytes of a request into the
/// application it runs for.
///
/// `authenticates` says which outcomes it may give for some authentication
/// bytes; `authenticate` gives one of them.
pub trait Authenticate {
    /// Whether `r` is an outcome the authenticator may give for `auth`.
    spec fn authenticates(&self, auth: Seq<u8>, r: Result<Seq<char>, ResponseStatus>) -> bool;

    /// The application that the authentication bytes stand for, or
    /// `AuthenticationError`.
    fn authenticate(&self, auth: &[u8]) -> (r: Result<ApplicationName, ResponseStatus>)
        ensures
            self.authenticates(auth@, identity_outcome(r)),
    ;
}

/// The outcome of an authentication, as the authenticator gave it.
pub open spec fn identity_outcome(r: Result<ApplicationName, ResponseStatus>) -> Result<Seq<char>, ResponseStatus> {
    match r {
        Ok(a) => Ok(a@),
        Err(e) => Err(e),
    }
}

/// The authenticator whose authentication bytes are the application name
/// itself, in UTF-8. It trusts what the client declares.
#[derive(PartialEq, Eq, Structural, Clone, Copy, Debug)]
pub struct DirectAuthenticator {}

/// What the direct authenticator makes of authentication bytes.
pub open spec fn direct_identity(auth: Seq<u8>) -> Result<Seq<char>, ResponseStatus> {
    if auth.len() == 0 || !valid_utf8(auth) {
        Err(ResponseStatus::AuthenticationError)
    } else {
        Ok(decode_utf8(auth))
    }
}

impl DirectAuthenticator {
    /// The application named by the authentication bytes, which must be a
    /// non-empty UTF-8 string.
    pub fn authenticate_direct(auth: &[u8]) -> (r: Result<ApplicationName, ResponseStatus>)
        ensures
            match r {
                Ok(a) => direct_identity(auth@) == Ok::<_, ResponseStatus>(a@),
                Err(e) => direct_identity(auth@) == Err::<Seq<char>, _>(e),
            },
    {
        if auth.len() == 0 {
            return Err(ResponseStatus::AuthenticationError);
        }
        let bytes = crate::response::copy_range(auth, 0, auth.len());
        assert(auth@.subrange(0, auth@.len() as int) =~= auth@);
        match string_from_utf8(bytes) {
            Some(name) => Ok(ApplicationName::new(name)),
            None => Err(ResponseStatus::AuthenticationError),
        }
    }
}

impl Authenticate for DirectAuthenticator {
    open spec fn authenticates(&self, auth: Seq<u8>, r: Result<Seq<char>, ResponseStatus>) -> bool {
        r == direct_identity(auth)
    }

    fn authenticate(&self, auth: &[u8]) -> (r: Result<ApplicationName, ResponseStatus>) {
        DirectAuthenticator::authenticate_direct(auth)
    }
}

/// The bytes of a status-only response.
pub open spec fn status_only_bytes(h: ResponseHeader) -> Seq<u8> {
    header_bytes(h)
}

/// Drives one connection: one request in, one response out.
pub struct FrontEndHandler<P: Provide, C: Convert, A: Authenticate> {
    dispatcher: Dispatcher<P, C>,
    authenticators: Vec<(AuthType, A)>,
    body_len_limit: usize,
}

impl<P: Provide, C: Convert, A: Authenticate> FrontEndHandler<P, C, A> {
    /// The limit on the bytes of body and authentication of a request.
    pub closed spec fn spec_limit(&self) -> usize {
        self.body_len_limit
    }

    /// The authentication methods that have an authenticator, in order.
    pub closed spec fn auth_types(&self) -> Seq<AuthType> {
        self.authenticators@.map_values(|e: (AuthType, A)| e.0)
    }

    /// The authenticators, in the order of `auth_types`.
    pub closed spec fn authenticators(&self) -> Seq<A> {
        self.authenticators@.map_values(|e: (AuthType, A)| e.1)
    }

    /// The dispatcher.
    pub closed spec fn dispatcher(&self) -> Dispatcher<P, C> {
        self.dispatcher
    }

    /// Whether `r` is the response to the request read from `stream`: the
    /// status of a failure to read it (with zeroed fields); for a request
    /// without authentication, the dispatcher's response for no application;
    /// `AuthenticatorNotRegistered` where no authenticator serves its method;
    /// else, with the first authenticator that does, the status of its
    /// failure or the dispatcher's response for the application it gives.
    pub open spec fn spec_handled(&self, stream: Seq<u8>, r: Response) -> bool {
        match parse_request(stream, self.spec_limit()) {
            Err(e) => r.header == ResponseHeader::spec_make(0, 0, 0, 0, 0, 0, 0, status_code(e))
                && r.body@.len() == 0,
            Ok((h, body, auth)) => if h.auth_type == auth_type_tag(AuthType::NoAuth) {
                self.dispatcher().spec_dispatched(h, body, None, r)
            } else {
                &&& (forall|j: int| 0 <= j < self.auth_types().len() ==> auth_type_tag(
                    #[trigger] self.auth_types()[j]) != h.auth_type) ==> (r.header
                    == status_response(h, ResponseStatus::AuthenticatorNotRegistered) && r.body@.len()
                    == 0)
                &&& forall|i: int|
                    0 <= i < self.auth_types().len() && auth_type_tag(#[trigger] self.auth_types()[i])
                        == h.auth_type && (forall|j: int| 0 <= j < i ==> auth_type_tag(
                        #[trigger] self.auth_types()[j]) != h.auth_type) ==> exists|
                        o: Result<Seq<char>, ResponseStatus>,
                    | #[trigger] self.authenticators()[i].authenticates(auth, o) && match o {
                        Err(s) => r.header == status_response(h, s) && r.body@.len() == 0,
                        Ok(a) => self.dispatcher().spec_dispatched(h, body, Some(a), r),
                    }
            },
        }
    }

    /// The index of the authenticator for an authentication method.
    fn find_authenticator(&self, auth_type: u8) -> (r: Option<usize>)
        ensures
            match r {
                Some(i) => i < self.auth_types().len() && auth_type_tag(self.auth_types()[i as int])
                    == auth_type && forall|j: int| 0 <= j < i ==> auth_type_tag(
                    #[trigger] self.auth_types()[j]) != auth_type,
                None => forall|j: int| 0 <= j < self.auth_types().len() ==> auth_type_tag(
                    #[trigger] self.auth_types()[j]) != auth_type,
            },
    {
        let mut i: usize = 0;
        while i < self.authenticators.len()
            invariant
                i <= self.authenticators@.len(),
                self.auth_types().len() == self.authenticators@.len(),
                forall|j: int| 0 <= j < i ==> auth_type_tag(#[trigger] self.auth_types()[j])
                    != auth_type,
            decreases self.authenticators@.len() - i,
        {
            assert(self.auth_types()[i as int] == self.authenticators@[i as int].0);
            if self.authenticators[i].0.to_u8() == auth_type {
                return Some(i);
            }
            i = i + 1;
        }
        None
    }

    /// The response to the request read from the bytes of a connection, as
    /// `spec_handled` says: the request's authentication bytes go to the
    /// authenticator of its method, and the request, with the application
    /// that authenticator gives (or none, without authentication), to the
    /// dispatcher.
    pub fn handle_request_response(&self, stream: &[u8]) -> (r: Response)
        ensures
            r.wf(),
            self.spec_handled(stream@, r),
    {
        let request = match Request::read_from_stream(stream, self.body_len_limit) {
            Ok(request) => request,
            Err(status) => return Response::from_status(status),
        };
        if request.header.auth_type == AuthType::NoAuth.to_u8() {
            let r = self.dispatcher.dispatch_request(request, None);
            assert(self.spec_handled(stream@, r));
            return r;
        }
        match self.find_authenticator(request.header.auth_type) {
            None => {
                let r = Response::from_request_header(
                    &request.header,
                    ResponseStatus::AuthenticatorNotRegistered,
                );
                assert(self.spec_handled(stream@, r));
                r
            },
            Some(i) => {
                assert(self.authenticators()[i as int] == self.authenticators@[i as int].1);
                let outcome = self.authenticators[i].1.authenticate(request.auth.as_slice());
                let ghost o = identity_outcome(outcome);
                let ghost h = request.header;
                let ghost body = request.body@;
                let ghost auth = request.auth@;
                let r = match outcome {
                    Ok(app_name) => self.dispatcher.dispatch_request(request, Some(app_name)),
                    Err(status) => Response::from_request_header(&request.header, status),
                };
                proof {
                    self.lemma_authenticated(stream@, h, body, auth, i as int, o, r);
                }
                r
            },
        }
    }

    proof fn lemma_authenticated(
        &self,
        stream: Seq<u8>,
        h: RequestHeader,
        body: Seq<u8>,
        auth: Seq<u8>,
        i: int,
        o: Result<Seq<char>, ResponseStatus>,
        r: Response,
    )
        requires
            parse_request(stream, self.spec_limit()) == Ok::<_, ResponseStatus>((h, body, auth)),
            h.auth_type != auth_type_tag(AuthType::NoAuth),
            0 <= i < self.auth_types().len(),
            auth_type_tag(self.auth_types()[i]) == h.auth_type,
            forall|j: int| 0 <= j < i ==> auth_type_tag(#[trigger] self.auth_types()[j]) != h.auth_type,
            self.authenticators()[i].authenticates(auth, o),
            match o {
                Err(s) => r.header == status_response(h, s) && r.body@.len() == 0,
                Ok(a) => self.dispatcher().spec_dispatched(h, body, Some(a), r),
            },
        ensures
            self.spec_handled(stream, r),
    {
        assert forall|k: int|
            0 <= k < self.auth_types().len() && auth_type_tag(#[trigger] self.auth_types()[k])
                == h.auth_type && (forall|j: int| 0 <= j < k ==> auth_type_tag(
                #[trigger] self.auth_types()[j]) != h.auth_type) implies exists|
                o2: Result<Seq<char>, ResponseStatus>,
            | #[trigger] self.authenticators()[k].authenticates(auth, o2) && match o2 {
                Err(s) => r.header == status_response(h, s) && r.body@.len() == 0,
                Ok(a) => self.dispatcher().spec_dispatched(h, body, Some(a), r),
            } by {
            if k < i {
            } else if k > i {
                assert(auth_type_tag(self.auth_types()[i]) != h.auth_type);
            }
        }
        assert(!(forall|j: int| 0 <= j < self.auth_types().len() ==> auth_type_tag(
            #[trigger] self.auth_types()[j]) != h.auth_type));
        assert((forall|j: int| 0 <= j < self.auth_types().len() ==> auth_type_tag(
            #[trigger] self.auth_types()[j]) != h.auth_type) ==> (r.header
            == status_response(h, ResponseStatus::AuthenticatorNotRegistered) && r.body@.len()
            == 0));
        match parse_request(stream, self.spec_limit()) {
            Ok((h2, b2, a2)) => {
                assert(h2 == h && b2 == body && a2 == auth);
            },
            Err(_) => {},
        }
    }

    /// The bytes of the response to the request read from the bytes of a
    /// connection, as `handle_request_response` decides it.
    pub fn handle_request(&self, stream: &[u8]) -> (r: Vec<u8>)
        ensures
            exists|resp: Response| #[trigger] self.spec_handled(stream@, resp) && resp.wf() && r@
                == resp.spec_bytes(),
    {
        let response = self.handle_request_response(stream);
        let mut out: Vec<u8> = Vec::new();
        response.write_to_stream(&mut out);
        assert(out@ =~= response.spec_bytes());
        out
    }

    /// Hands a request straight to the dispatcher, for the given application.
    pub fn bypass_to_dispatcher(&self, req: Request, app_name: ApplicationName) -> (r: Response)
        ensures
            r.wf(),
            self.dispatcher().spec_dispatched(req.header, req.body@, Some(app_name@), r),
    {
        self.dispatcher.dispatch_request(req, Some(app_name))
    }
}

/// Builds a front-end handler.
pub struct FrontEndHandlerBuilder<P: Provide, C: Convert, A: Authenticate> {
    dispatcher: Option<Dispatcher<P, C>>,
    authenticators: Option<Vec<(AuthType, A)>>,
    body_len_limit: usize,
}

impl<P: Provide, C: Convert, A: Authenticate> FrontEndHandlerBuilder<P, C, A> {
    /// The authentication methods registered so far, if any.
    pub closed spec fn registered(&self) -> Option<Seq<AuthType>> {
        match self.authenticators {
            Some(v) => Some(v@.map_values(|e: (AuthType, A)| e.0)),
            None => None,
        }
    }

    /// Whether a dispatcher is set.
    pub closed spec fn has_dispatcher(&self) -> bool {
        self.dispatcher is Some
    }

    /// The body length limit set so far.
    pub closed spec fn spec_limit(&self) -> usize {
        self.body_len_limit
    }

    /// A builder with nothing set and the default body length limit.
    pub fn new() -> (r: Self)
        ensures
            !r.has_dispatcher(),
            r.registered() is None,
            r.spec_limit() == DEFAULT_BODY_LEN_LIMIT,
    {
        FrontEndHandlerBuilder {
            dispatcher: None,
            authenticators: None,
            body_len_limit: DEFAULT_BODY_LEN_LIMIT,
        }
    }

    /// Sets the dispatcher.
    pub fn with_dispatcher(self, dispatcher: Dispatcher<P, C>) -> (r: Self)
        ensures
            r.has_dispatcher(),
            r.registered() == self.registered(),
            r.spec_limit() == self.spec_limit(),
    {
        FrontEndHandlerBuilder { dispatcher: Some(dispatcher), ..self }
    }

    /// Sets the limit on the bytes of body and authentication of a request.
    pub fn with_body_len_limit(self, body_len_limit: usize) -> (r: Self)
        ensures
            r.has_dispatcher() == self.has_dispatcher(),
            r.registered() == self.registered(),
            r.spec_limit() == body_len_limit,
    {
        FrontEndHandlerBuilder { body_len_limit, ..self }
    }

    /// Registers the authenticator of an authentication method, in place of
    /// any earlier one for that method.
    pub fn with_authenticator(self, auth_type: AuthType, authenticator: A) -> (r: Self)
        ensures
            r.has_dispatcher() == self.has_dispatcher(),
            r.spec_limit() == self.spec_limit(),
            r.registered() == Some(match self.registered() {
                Some(ts) => if ts.contains(auth_type) {
                    ts
                } else {
                    ts.push(auth_type)
                },
                None => seq![auth_type],
            }),
            r.registered() matches Some(ts) && ts.contains(auth_type) && (forall|t: AuthType|
                #[trigger] ts.contains(t) ==> t == auth_type || (self.registered() matches Some(old_ts)
                    && old_ts.contains(t))),
    {
        let FrontEndHandlerBuilder { dispatcher, authenticators, body_len_limit } = self;
        let mut list = match authenticators {
            Some(list) => list,
            None => Vec::new(),
        };
        let ghost old_types = list@.map_values(|e: (AuthType, A)| e.0);
        let mut i: usize = 0;
        while i < list.len() && list[i].0 != auth_type
            invariant
                i <= list@.len(),
                list@.map_values(|e: (AuthType, A)| e.0) == old_types,
                forall|j: int| 0 <= j < i ==> old_types[j] != auth_type,
            decreases list@.len() - i,
        {
            i = i + 1;
        }
        if i < list.len() {
            list.set(i, (auth_type, authenticator));
            assert(list@.map_values(|e: (AuthType, A)| e.0) =~= old_types);
            assert(list@.map_values(|e: (AuthType, A)| e.0)[i as int] == auth_type);
            assert(old_types[i as int] == auth_type);
            assert(old_types.contains(auth_type));
        } else {
            list.push((auth_type, authenticator));
            assert(list@.map_values(|e: (AuthType, A)| e.0) =~= old_types.push(auth_type));
            assert(self.registered() is None ==> old_types.push(auth_type) =~= seq![auth_type]);
            assert(!old_types.contains(auth_type));
            assert(list@.map_values(|e: (AuthType, A)| e.0)[old_types.len() as int] == auth_type);
        }
        let r = FrontEndHandlerBuilder { dispatcher, authenticators: Some(list), body_len_limit };
        proof {
            let ts = r.registered().unwrap();
            assert forall|t: AuthType| #[trigger] ts.contains(t) implies t == auth_type || (
            self.registered() matches Some(old_ts) && old_ts.contains(t)) by {
                let k = choose|k: int| 0 <= k < ts.len() && ts[k] == t;
                if t != auth_type {
                    assert(old_types[k] == t);
                    if self.registered() is None {
                        assert(old_types.len() == 0);
                    }
                }
            }
        }
        r
    }

    /// The front-end handler, or what is missing.
    pub fn build(self) -> (r: Result<FrontEndHandler<P, C, A>, BuildError>)
        ensures
            r is Ok <==> self.has_dispatcher() && self.registered() is Some,
            !self.has_dispatcher() ==> r == Err::<FrontEndHandler<P, C, A>, _>(BuildError::DispatcherMissing),
            self.has_dispatcher() && self.registered() is None ==> r == Err::<FrontEndHandler<P, C, A>, _>(BuildError::AuthenticatorsMissing),
            r matches Ok(h) ==> h.spec_limit() == self.spec_limit() && Some(h.auth_types()) == self.registered(),
    {
        let dispatcher = match self.dispatcher {
            Some(d) => d,
            None => return Err(BuildError::DispatcherMissing),
        };
        let authenticators = match self.authenticators {
            Some(a) => a,
            None => return Err(BuildError::AuthenticatorsMissing),
        };
        Ok(FrontEndHandler { dispatcher, authenticators, body_len_limit: self.body_len_limit })
    }
}

} // verus!
