//! Requests: the fixed header, the opaque body and authentication bytes, and
//! their wire form.
use vstd::prelude::*;
use crate::le::{le16, le32, le64, read16, read32, read64, push_u16, push_u32, push_u64, get_u16, get_u32, get_u64};
use crate::le::{lemma_read16_le16, lemma_read32_le32, lemma_read64_le64};
use crate::requests::{MAGIC_NUMBER, REQUEST_HDR_SIZE};
use crate::response::copy_range;
use crate::status::ResponseStatus;

verus! {

/// Number of bytes of a request header on the wire.
pub const REQUEST_HEADER_LEN: usize = 28;

/// The request header, field by field as on the wire.
#[derive(PartialEq, Eq, Structural, Clone, Copy, Debug)]
pub struct RequestHeader {
    pub magic_number: u32,
    pub hdr_size: u16,
    pub version_maj: u8,
    pub version_min: u8,
    pub provider: u8,
    pub session: u64,
    pub content_type: u8,
    pub accept_type: u8,
    pub auth_type: u8,
    pub body_len: u32,
    pub auth_len: u16,
    pub opcode: u16,
}

impl RequestHeader {
    /// The header carries the fixed magic number and header size.
    pub open spec fn wf(&self) -> bool {
        self.magic_number == MAGIC_NUMBER && self.hdr_size == REQUEST_HDR_SIZE
    }

    /// The header whose fields are all zero but the magic number and size.
    pub open spec fn zeroed() -> RequestHeader {
        RequestHeader {
            magic_number: MAGIC_NUMBER,
            hdr_size: REQUEST_HDR_SIZE,
            version_maj: 0,
            version_min: 0,
            provider: 0,
            session: 0,
            content_type: 0,
            accept_type: 0,
            auth_type: 0,
            body_len: 0,
            auth_len: 0,
            opcode: 0,
        }
    }

    /// A header whose fields are all zero but the magic number and size.
    pub fn new() -> (r: RequestHeader)
        ensures
            r == Self::zeroed(),
            r.wf(),
    {
        RequestHeader {
            magic_number: MAGIC_NUMBER,
            hdr_size: REQUEST_HDR_SIZE,
            version_maj: 0,
            version_min: 0,
            provider: 0,
            session: 0,
            content_type: 0,
            accept_type: 0,
            auth_type: 0,
            body_len: 0,
            auth_len: 0,
            opcode: 0,
        }
    }
}

/// The bytes of a request header on the wire.
pub open spec fn request_header_bytes(h: RequestHeader) -> Seq<u8> {
    le32(h.magic_number) + le16(h.hdr_size) + seq![h.version_maj, h.version_min, h.provider] + le64(
        h.session,
    ) + seq![h.content_type, h.accept_type, h.auth_type] + le32(h.body_len) + le16(h.auth_len)
        + le16(h.opcode)
}

/// The header read from the first bytes of `s`, which hold a whole header.
pub open spec fn request_header_at(s: Seq<u8>) -> RequestHeader {
    RequestHeader {
        magic_number: read32(s, 0),
        hdr_size: read16(s, 4),
        version_maj: s[6],
        version_min: s[7],
        provider: s[8],
        session: read64(s, 9),
        content_type: s[17],
        accept_type: s[18],
        auth_type: s[19],
        body_len: read32(s, 20),
        auth_len: read16(s, 24),
        opcode: read16(s, 26),
    }
}

/// A request: header, body and authentication bytes.
#[derive(PartialEq, Eq, Clone, Debug)]
pub struct Request {
    pub header: RequestHeader,
    pub body: Vec<u8>,
    pub auth: Vec<u8>,
}

/// What reading a request from `s` gives, where the body and authentication
/// bytes together may hold at most `limit` bytes.
pub open spec fn parse_request(s: Seq<u8>, limit: usize) -> Result<
    (RequestHeader, Seq<u8>, Seq<u8>),
    ResponseStatus,
> {
    if s.len() < 4 {
        Err(ResponseStatus::ConnectionError)
    } else if read32(s, 0) != MAGIC_NUMBER {
        Err(ResponseStatus::InvalidHeader)
    } else if s.len() < 6 {
        Err(ResponseStatus::ConnectionError)
    } else if read16(s, 4) != REQUEST_HDR_SIZE {
        Err(ResponseStatus::InvalidHeader)
    } else if s.len() < REQUEST_HEADER_LEN {
        Err(ResponseStatus::ConnectionError)
    } else {
        let h = request_header_at(s);
        let body_end = REQUEST_HEADER_LEN + h.body_len;
        if h.body_len + h.auth_len > limit {
            Err(ResponseStatus::BodyLenTooLarge)
        } else if s.len() < body_end + h.auth_len {
            Err(ResponseStatus::ConnectionError)
        } else {
            Ok(
                (
                    h,
                    s.subrange(REQUEST_HEADER_LEN as int, body_end),
                    s.subrange(body_end, body_end + h.auth_len),
                ),
            )
        }
    }
}

impl Request {
    /// The header is well formed and its lengths are those of the body and
    /// authentication bytes.
    pub open spec fn wf(&self) -> bool {
        &&& self.header.wf()
        &&& self.header.body_len as nat == self.body@.len()
        &&& self.header.auth_len as nat == self.auth@.len()
    }

    /// The bytes of the request on the wire.
    pub open spec fn spec_bytes(&self) -> Seq<u8> {
        request_header_bytes(self.header) + self.body@ + self.auth@
    }

    /// A request with the zeroed header and empty body and authentication.
    pub fn new() -> (r: Request)
        ensures
            r.wf(),
            r.header == RequestHeader::zeroed(),
            r.body@.len() == 0 && r.auth@.len() == 0,
    {
        Request { header: RequestHeader::new(), body: Vec::new(), auth: Vec::new() }
    }

    /// Appends the bytes of the request (header, body, authentication) to a stream.
    pub fn write_to_stream(&self, stream: &mut Vec<u8>)
        ensures
            final(stream)@ == old(stream)@ + self.spec_bytes(),
    {
        let h = &self.header;
        let ghost s0 = stream@;
        push_u32(stream, h.magic_number);
        push_u16(stream, h.hdr_size);
        stream.push(h.version_maj);
        stream.push(h.version_min);
        stream.push(h.provider);
        push_u64(stream, h.session);
        stream.push(h.content_type);
        stream.push(h.accept_type);
        stream.push(h.auth_type);
        push_u32(stream, h.body_len);
        push_u16(stream, h.auth_len);
        push_u16(stream, h.opcode);
        assert(stream@ == s0 + request_header_bytes(self.header));
        append_bytes(stream, &self.body);
        append_bytes(stream, &self.auth);
        assert(stream@ == s0 + self.spec_bytes());
    }

    /// Reads a request from the start of `stream`.
    ///
    /// Fails with `InvalidHeader` where the magic number or the header size is
    /// wrong, with `BodyLenTooLarge` where the body and authentication lengths
    /// together exceed `body_len_limit` (before anything of them is read), and
    /// with `ConnectionError` where the stream ends early.
    pub fn read_from_stream(stream: &[u8], body_len_limit: usize) -> (r: Result<
        Request,
        ResponseStatus,
    >)
        ensures
            match r {
                Ok(req) => parse_request(stream@, body_len_limit) == Ok::<_, ResponseStatus>(
                    (req.header, req.body@, req.auth@),
                ),
                Err(e) => parse_request(stream@, body_len_limit) == Err::<
                    (RequestHeader, Seq<u8>, Seq<u8>),
                    _,
                >(e),
            },
            r matches Ok(req) ==> req.wf(),
    {
        if stream.len() < 4 {
            return Err(ResponseStatus::ConnectionError);
        }
        if get_u32(stream, 0) != MAGIC_NUMBER {
            return Err(ResponseStatus::InvalidHeader);
        }
        if stream.len() < 6 {
            return Err(ResponseStatus::ConnectionError);
        }
        if get_u16(stream, 4) != REQUEST_HDR_SIZE {
            return Err(ResponseStatus::InvalidHeader);
        }
        if stream.len() < REQUEST_HEADER_LEN {
            return Err(ResponseStatus::ConnectionError);
        }
        let header = RequestHeader {
            magic_number: get_u32(stream, 0),
            hdr_size: get_u16(stream, 4),
            version_maj: stream[6],
            version_min: stream[7],
            provider: stream[8],
            session: get_u64(stream, 9),
            content_type: stream[17],
            accept_type: stream[18],
            auth_type: stream[19],
            body_len: get_u32(stream, 20),
            auth_len: get_u16(stream, 24),
            opcode: get_u16(stream, 26),
        };
        let body_len = header.body_len as usize;
        let auth_len = header.auth_len as usize;
        if body_len > body_len_limit || auth_len > body_len_limit - body_len {
            return Err(ResponseStatus::BodyLenTooLarge);
        }
        let available = stream.len() - REQUEST_HEADER_LEN;
        if body_len > available || auth_len > available - body_len {
            return Err(ResponseStatus::ConnectionError);
        }
        let body_end = REQUEST_HEADER_LEN + body_len;
        let body = copy_range(stream, REQUEST_HEADER_LEN, body_end);
        let auth = copy_range(stream, body_end, body_end + auth_len);
        Ok(Request { header, body, auth })
    }
}

/// How many bytes of body and authentication follow a request header, read
/// from the first bytes of a connection; or the status with which the request
/// fails before any of them is read.
pub fn payload_len(header: &[u8], body_len_limit: usize) -> (r: Result<usize, ResponseStatus>)
    ensures
        match r {
            Ok(n) => header@.len() >= REQUEST_HEADER_LEN && request_header_at(header@).wf() && n
                == request_header_at(header@).body_len + request_header_at(header@).auth_len && n
                <= body_len_limit,
            Err(e) => parse_request(header@, body_len_limit) == Err::<
                (RequestHeader, Seq<u8>, Seq<u8>),
                _,
            >(e),
        },
{
    if header.len() < 4 {
        return Err(ResponseStatus::ConnectionError);
    }
    if get_u32(header, 0) != MAGIC_NUMBER {
        return Err(ResponseStatus::InvalidHeader);
    }
    if header.len() < 6 {
        return Err(ResponseStatus::ConnectionError);
    }
    if get_u16(header, 4) != REQUEST_HDR_SIZE {
        return Err(ResponseStatus::InvalidHeader);
    }
    if header.len() < REQUEST_HEADER_LEN {
        return Err(ResponseStatus::ConnectionError);
    }
    let body_len = get_u32(header, 20) as usize;
    let auth_len = get_u16(header, 24) as usize;
    if body_len > body_len_limit || auth_len > body_len_limit - body_len {
        return Err(ResponseStatus::BodyLenTooLarge);
    }
    Ok(body_len + auth_len)
}

/// Appends `b` to `out`.
pub fn append_bytes(out: &mut Vec<u8>, b: &Vec<u8>)
    ensures
        final(out)@ == old(out)@ + b@,
{
    let mut i: usize = 0;
    while i < b.len()
        invariant
            i <= b@.len(),
            out@ == old(out)@ + b@.subrange(0, i as int),
        decreases b@.len() - i,
    {
        out.push(b[i]);
        i = i + 1;
        assert(b@.subrange(0, i as int) == b@.subrange(0, i - 1 as int).push(b@[i - 1]));
    }
    assert(b@.subrange(0, i as int) == b@);
}

/// The fields of a request header survive a trip through its bytes.
proof fn lemma_request_header_at(h: RequestHeader, s: Seq<u8>)
    requires
        s.len() >= REQUEST_HEADER_LEN,
        s.subrange(0, REQUEST_HEADER_LEN as int) == request_header_bytes(h),
    ensures
        request_header_at(s) == h,
{
    let t = s.subrange(0, 28);
    assert(s.subrange(0, 4) =~= t.subrange(0, 4) && t.subrange(0, 4) =~= le32(h.magic_number));
    lemma_read32_le32(h.magic_number, s, 0);
    assert(s.subrange(4, 6) =~= t.subrange(4, 6) && t.subrange(4, 6) =~= le16(h.hdr_size));
    lemma_read16_le16(h.hdr_size, s, 4);
    assert(s.subrange(9, 17) =~= t.subrange(9, 17) && t.subrange(9, 17) =~= le64(h.session));
    lemma_read64_le64(h.session, s, 9);
    assert(s.subrange(20, 24) =~= t.subrange(20, 24) && t.subrange(20, 24) =~= le32(h.body_len));
    lemma_read32_le32(h.body_len, s, 20);
    assert(s.subrange(24, 26) =~= t.subrange(24, 26) && t.subrange(24, 26) =~= le16(h.auth_len));
    lemma_read16_le16(h.auth_len, s, 24);
    assert(s.subrange(26, 28) =~= t.subrange(26, 28) && t.subrange(26, 28) =~= le16(h.opcode));
    lemma_read16_le16(h.opcode, s, 26);
    assert(s[6] == s.subrange(0, 28)[6] && s[7] == s.subrange(0, 28)[7]);
    assert(s[8] == s.subrange(0, 28)[8] && s[17] == s.subrange(0, 28)[17]);
    assert(s[18] == s.subrange(0, 28)[18] && s[19] == s.subrange(0, 28)[19]);
}

/// Reading back the bytes of a well-formed request, whatever follows them,
/// gives the request, where its body and authentication fit in the limit.
pub proof fn lemma_request_round_trip(r: Request, rest: Seq<u8>, limit: usize)
    requires
        r.wf(),
        r.body@.len() + r.auth@.len() <= limit,
    ensures
        parse_request(r.spec_bytes() + rest, limit) == Ok::<_, ResponseStatus>(
            (r.header, r.body@, r.auth@),
        ),
{
    let s = r.spec_bytes() + rest;
    let hb = request_header_bytes(r.header);
    assert(hb.len() == 28);
    assert(s.subrange(0, 28) == hb);
    lemma_request_header_at(r.header, s);
    let body_end: int = 28 + r.body@.len() as int;
    assert(s.subrange(28, body_end) == r.body@);
    assert(s.subrange(body_end, body_end + r.auth@.len() as int) == r.auth@);
}

/// A frame that does not open with the magic number is refused as an invalid header.
pub proof fn lemma_magic_enforced(s: Seq<u8>, limit: usize)
    requires
        s.len() >= 4,
        read32(s, 0) != MAGIC_NUMBER,
    ensures
        parse_request(s, limit) == Err::<(RequestHeader, Seq<u8>, Seq<u8>), _>(
            ResponseStatus::InvalidHeader,
        ),
{
}

/// A request whose body and authentication lengths together exceed the limit
/// is refused as too large, whether or not any of those bytes follow its header.
pub proof fn lemma_size_enforced(h: RequestHeader, rest: Seq<u8>, limit: usize)
    requires
        h.wf(),
        h.body_len + h.auth_len > limit,
    ensures
        parse_request(request_header_bytes(h) + rest, limit) == Err::<
            (RequestHeader, Seq<u8>, Seq<u8>),
            _,
        >(ResponseStatus::BodyLenTooLarge),
{
    let s = request_header_bytes(h) + rest;
    assert(s.subrange(0, 28) == request_header_bytes(h));
    lemma_request_header_at(h, s);
}

} // verus!
