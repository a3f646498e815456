//! Responses: the fixed header, the opaque body and their wire form.
use vstd::prelude::*;
use crate::le::{le16, le32, le64, read16, read32, read64, push_u16, push_u32, push_u64, get_u16, get_u32, get_u64};
use crate::le::{lemma_read16_le16, lemma_read32_le32, lemma_read64_le64};
use crate::requests::{Opcode, opcode_value, is_opcode_value, MAGIC_NUMBER, RESPONSE_HDR_SIZE};
use crate::status::{ResponseStatus, status_code, is_status_code};
use crate::request::RequestHeader;

verus! {

/// Number of bytes of a response header on the wire.
pub const RESPONSE_HEADER_LEN: usize = 26;

/// The response header, field by field as on the wire.
///
/// The magic number and header size are fixed, and the body length follows
/// from the body: `wf` and `Response::wf` state this.
#[derive(PartialEq, Eq, Structural, Clone, Copy, Debug)]
pub struct ResponseHeader {
    pub magic_number: u32,
    pub hdr_size: u16,
    pub version_maj: u8,
    pub version_min: u8,
    pub provider: u8,
    pub session: u64,
    pub content_type: u8,
    pub body_len: u32,
    pub opcode: u16,
    pub status: u16,
}

impl ResponseHeader {
    /// The header carries the fixed magic number and header size.
    pub open spec fn wf(&self) -> bool {
        self.magic_number == MAGIC_NUMBER && self.hdr_size == RESPONSE_HDR_SIZE
    }

    /// The header with these fields and the fixed magic number and size.
    pub open spec fn spec_make(
        version_maj: u8,
        version_min: u8,
        provider: u8,
        session: u64,
        content_type: u8,
        body_len: u32,
        opcode: u16,
        status: u16,
    ) -> ResponseHeader {
        ResponseHeader {
            magic_number: MAGIC_NUMBER,
            hdr_size: RESPONSE_HDR_SIZE,
            version_maj,
            version_min,
            provider,
            session,
            content_type,
            body_len,
            opcode,
            status,
        }
    }

    /// A header whose fields are all zero but the magic number and size.
    pub fn new() -> (r: ResponseHeader)
        ensures
            r == Self::spec_make(0, 0, 0, 0, 0, 0, 0, 0),
            r.wf(),
            r.version_maj == 0 && r.version_min == 0 && r.provider == 0 && r.session == 0,
            r.content_type == 0 && r.body_len == 0 && r.opcode == 0 && r.status == 0,
    {
        ResponseHeader {
            magic_number: MAGIC_NUMBER,
            hdr_size: RESPONSE_HDR_SIZE,
            version_maj: 0,
            version_min: 0,
            provider: 0,
            session: 0,
            content_type: 0,
            body_len: 0,
            opcode: 0,
            status: 0,
        }
    }

    /// A header with the given fields and the fixed magic number and size.
    pub fn make(
        version_maj: u8,
        version_min: u8,
        provider: u8,
        session: u64,
        content_type: u8,
        body_len: u32,
        opcode: u16,
        status: u16,
    ) -> (r: ResponseHeader)
        ensures
            r == Self::spec_make(
                version_maj,
                version_min,
                provider,
                session,
                content_type,
                body_len,
                opcode,
                status,
            ),
    {
        ResponseHeader {
            magic_number: MAGIC_NUMBER,
            hdr_size: RESPONSE_HDR_SIZE,
            version_maj,
            version_min,
            provider,
            session,
            content_type,
            body_len,
            opcode,
            status,
        }
    }

    /// The status carried by the header.
    pub fn status(&self) -> (r: ResponseStatus)
        requires
            is_status_code(self.status),
        ensures
            status_code(r) == self.status,
    {
        match ResponseStatus::from_u16(self.status) {
            Some(s) => s,
            None => {
                proof {
                    assert(false);
                }
                ResponseStatus::Success
            },
        }
    }

    /// The operation named by the header.
    pub fn opcode(&self) -> (r: Opcode)
        requires
            is_opcode_value(self.opcode),
        ensures
            opcode_value(r) == self.opcode,
    {
        match Opcode::from_u16(self.opcode) {
            Some(o) => o,
            None => {
                proof {
                    assert(false);
                }
                Opcode::Ping
            },
        }
    }

    /// The length of the body that follows the header.
    pub fn body_len(&self) -> (r: u32)
        ensures
            r == self.body_len,
    {
        self.body_len
    }
}

/// The bytes of a response header on the wire.
pub open spec fn header_bytes(h: ResponseHeader) -> Seq<u8> {
    le32(h.magic_number) + le16(h.hdr_size) + seq![h.version_maj, h.version_min, h.provider]
        + le64(h.session) + seq![h.content_type] + le32(h.body_len) + le16(h.opcode) + le16(
        h.status,
    )
}

/// The header read from the first bytes of `s`, which hold a whole header.
pub open spec fn header_at(s: Seq<u8>) -> ResponseHeader {
    ResponseHeader::spec_make(
        s[6],
        s[7],
        s[8],
        read64(s, 9),
        s[17],
        read32(s, 18),
        read16(s, 22),
        read16(s, 24),
    )
}

/// What reading a response header from the start of `s` gives.
pub open spec fn parse_response_header(s: Seq<u8>) -> Result<ResponseHeader, ResponseStatus> {
    if s.len() < 4 {
        Err(ResponseStatus::ConnectionError)
    } else if read32(s, 0) != MAGIC_NUMBER {
        Err(ResponseStatus::InvalidHeader)
    } else if s.len() < 6 {
        Err(ResponseStatus::ConnectionError)
    } else if read16(s, 4) != RESPONSE_HDR_SIZE {
        Err(ResponseStatus::InvalidHeader)
    } else if s.len() < RESPONSE_HEADER_LEN {
        Err(ResponseStatus::ConnectionError)
    } else {
        Ok(header_at(s))
    }
}

impl ResponseHeader {
    /// Appends the bytes of the header to a stream.
    pub fn write_to_stream(&self, stream: &mut Vec<u8>)
        ensures
            final(stream)@ == old(stream)@ + header_bytes(*self),
    {
        let ghost s0 = stream@;
        push_u32(stream, self.magic_number);
        push_u16(stream, self.hdr_size);
        stream.push(self.version_maj);
        stream.push(self.version_min);
        stream.push(self.provider);
        push_u64(stream, self.session);
        stream.push(self.content_type);
        push_u32(stream, self.body_len);
        push_u16(stream, self.opcode);
        push_u16(stream, self.status);
        assert(stream@ =~= s0 + header_bytes(*self));
    }

    /// Reads a response header from the start of `stream`.
    ///
    /// Fails with `InvalidHeader` where the magic number or the header size is
    /// wrong, and with `ConnectionError` where the stream ends early.
    pub fn read_from_stream(stream: &[u8]) -> (r: Result<ResponseHeader, ResponseStatus>)
        ensures
            r == parse_response_header(stream@),
    {
        if stream.len() < 4 {
            return Err(ResponseStatus::ConnectionError);
        }
        if get_u32(stream, 0) != MAGIC_NUMBER {
            return Err(ResponseStatus::InvalidHeader);
        }
        if stream.len() < 6 {
            return Err(ResponseStatus::ConnectionError);
        }
        if get_u16(stream, 4) != RESPONSE_HDR_SIZE {
            return Err(ResponseStatus::InvalidHeader);
        }
        if stream.len() < RESPONSE_HEADER_LEN {
            return Err(ResponseStatus::ConnectionError);
        }
        Ok(
            ResponseHeader::make(
                stream[6],
                stream[7],
                stream[8],
                get_u64(stream, 9),
                stream[17],
                get_u32(stream, 18),
                get_u16(stream, 22),
                get_u16(stream, 24),
            ),
        )
    }
}

/// The fields of a response header survive a trip through its bytes.
proof fn lemma_header_at(h: ResponseHeader, s: Seq<u8>)
    requires
        s.len() >= RESPONSE_HEADER_LEN,
        s.subrange(0, RESPONSE_HEADER_LEN as int) == header_bytes(h),
        h.wf(),
    ensures
        header_at(s) == h,
        read32(s, 0) == MAGIC_NUMBER,
        read16(s, 4) == RESPONSE_HDR_SIZE,
{
    let t = s.subrange(0, 26);
    assert(s.subrange(0, 4) =~= t.subrange(0, 4) && t.subrange(0, 4) =~= le32(h.magic_number));
    lemma_read32_le32(h.magic_number, s, 0);
    assert(s.subrange(4, 6) =~= t.subrange(4, 6) && t.subrange(4, 6) =~= le16(h.hdr_size));
    lemma_read16_le16(h.hdr_size, s, 4);
    assert(s.subrange(9, 17) =~= t.subrange(9, 17) && t.subrange(9, 17) =~= le64(h.session));
    lemma_read64_le64(h.session, s, 9);
    assert(s.subrange(18, 22) =~= t.subrange(18, 22) && t.subrange(18, 22) =~= le32(h.body_len));
    lemma_read32_le32(h.body_len, s, 18);
    assert(s.subrange(22, 24) =~= t.subrange(22, 24) && t.subrange(22, 24) =~= le16(h.opcode));
    lemma_read16_le16(h.opcode, s, 22);
    assert(s.subrange(24, 26) =~= t.subrange(24, 26) && t.subrange(24, 26) =~= le16(h.status));
    lemma_read16_le16(h.status, s, 24);
    assert(s[6] == t[6] && s[7] == t[7] && s[8] == t[8] && s[17] == t[17]);
}

/// Reading back the bytes of a well-formed response header, whatever follows
/// them, gives the header.
pub proof fn lemma_response_header_round_trip(h: ResponseHeader, rest: Seq<u8>)
    requires
        h.wf(),
    ensures
        parse_response_header(header_bytes(h) + rest) == Ok::<_, ResponseStatus>(h),
{
    let s = header_bytes(h) + rest;
    assert(s.subrange(0, 26) =~= header_bytes(h));
    lemma_header_at(h, s);
}

/// The body of a response: opaque bytes.
#[derive(PartialEq, Eq, Clone, Debug)]
pub struct ResponseBody {
    bytes: Vec<u8>,
}

impl View for ResponseBody {
    type V = Seq<u8>;

    closed spec fn view(&self) -> Seq<u8> {
        self.bytes@
    }
}

impl ResponseBody {
    /// An empty body.
    pub fn new() -> (r: ResponseBody)
        ensures
            r@ == Seq::<u8>::empty(),
    {
        ResponseBody { bytes: Vec::new() }
    }

    /// A body holding the given bytes.
    pub fn from_bytes(bytes: Vec<u8>) -> (r: ResponseBody)
        ensures
            r@ == bytes@,
    {
        ResponseBody { bytes }
    }

    /// The bytes of the body.
    pub fn bytes(&self) -> (r: &[u8])
        ensures
            r@ == self@,
    {
        self.bytes.as_slice()
    }

    /// The number of bytes of the body.
    pub fn len(&self) -> (r: usize)
        ensures
            r == self@.len(),
    {
        self.bytes.len()
    }

    /// Whether the body holds no byte.
    pub fn is_empty(&self) -> (r: bool)
        ensures
            r == (self@.len() == 0),
    {
        self.bytes.len() == 0
    }

    /// Appends the bytes of the body to a stream.
    pub fn write_to_stream(&self, stream: &mut Vec<u8>)
        ensures
            final(stream)@ == old(stream)@ + self@,
    {
        let mut i: usize = 0;
        while i < self.bytes.len()
            invariant
                i <= self.bytes@.len(),
                stream@ == old(stream)@ + self.bytes@.subrange(0, i as int),
            decreases self.bytes@.len() - i,
        {
            stream.push(self.bytes[i]);
            i = i + 1;
            assert(self.bytes@.subrange(0, i as int) == self.bytes@.subrange(0, i - 1 as int).push(
                self.bytes@[i - 1],
            ));
        }
        assert(self.bytes@.subrange(0, i as int) == self.bytes@);
    }

    /// Reads a body of `len` bytes from `stream`, starting at `start`.
    pub fn read_from_stream(stream: &[u8], start: usize, len: usize) -> (r: Result<
        ResponseBody,
        ResponseStatus,
    >)
        ensures
            start + len <= stream@.len() ==> (r matches Ok(b) && b@ == stream@.subrange(
                start as int,
                start + len,
            )),
            start + len > stream@.len() ==> r == Err::<ResponseBody, _>(
                ResponseStatus::ConnectionError,
            ),
    {
        if start > stream.len() || len > stream.len() - start {
            return Err(ResponseStatus::ConnectionError);
        }
        let bytes = copy_range(stream, start, start + len);
        Ok(ResponseBody { bytes })
    }
}

/// The bytes `b[from..to]`, copied.
pub fn copy_range(b: &[u8], from: usize, to: usize) -> (r: Vec<u8>)
    requires
        from <= to <= b@.len(),
    ensures
        r@ == b@.subrange(from as int, to as int),
{
    let mut out: Vec<u8> = Vec::new();
    let mut i: usize = from;
    while i < to
        invariant
            from <= i <= to <= b@.len(),
            out@ == b@.subrange(from as int, i as int),
        decreases to - i,
    {
        out.push(b[i]);
        i = i + 1;
        assert(b@.subrange(from as int, i as int) == b@.subrange(from as int, i - 1 as int).push(
            b@[i - 1],
        ));
    }
    out
}

/// A response: header and body.
#[derive(PartialEq, Eq, Clone, Debug)]
pub struct Response {
    pub header: ResponseHeader,
    pub body: ResponseBody,
}

/// What reading a response from `s` gives: the header and the body, or the failure.
pub open spec fn parse_response(s: Seq<u8>) -> Result<(ResponseHeader, Seq<u8>), ResponseStatus> {
    if s.len() < 4 {
        Err(ResponseStatus::ConnectionError)
    } else if read32(s, 0) != MAGIC_NUMBER {
        Err(ResponseStatus::InvalidHeader)
    } else if s.len() < 6 {
        Err(ResponseStatus::ConnectionError)
    } else if read16(s, 4) != RESPONSE_HDR_SIZE {
        Err(ResponseStatus::InvalidHeader)
    } else if s.len() < RESPONSE_HEADER_LEN {
        Err(ResponseStatus::ConnectionError)
    } else if s.len() < RESPONSE_HEADER_LEN + read32(s, 18) {
        Err(ResponseStatus::ConnectionError)
    } else {
        Ok(
            (
                header_at(s),
                s.subrange(RESPONSE_HEADER_LEN as int, RESPONSE_HEADER_LEN + read32(s, 18)),
            ),
        )
    }
}

impl Response {
    /// The header is well formed and its body length is that of the body.
    pub open spec fn wf(&self) -> bool {
        &&& self.header.wf()
        &&& self.header.body_len as nat == self.body@.len()
    }

    /// The bytes of the response on the wire.
    pub open spec fn spec_bytes(&self) -> Seq<u8> {
        header_bytes(self.header) + self.body@
    }

    /// A response with the zeroed header and an empty body.
    pub fn new() -> (r: Response)
        ensures
            r.wf(),
            r.header == ResponseHeader::spec_make(0, 0, 0, 0, 0, 0, 0, 0),
            r.body@ == Seq::<u8>::empty(),
    {
        Response { header: ResponseHeader::new(), body: ResponseBody::new() }
    }

    /// The status-only response to a request with the given header: it echoes
    /// the version, provider, session and opcode, and its encoding is the
    /// request's accepted one.
    pub open spec fn spec_from_request_header(h: RequestHeader, status: ResponseStatus) -> ResponseHeader {
        ResponseHeader::spec_make(
            h.version_maj,
            h.version_min,
            h.provider,
            h.session,
            h.accept_type,
            0,
            h.opcode,
            status_code(status),
        )
    }

    /// A status-only response to a request with the given header.
    pub fn from_request_header(h: &RequestHeader, status: ResponseStatus) -> (r: Response)
        ensures
            r.wf(),
            r.header == Self::spec_from_request_header(*h, status),
            r.body@ == Seq::<u8>::empty(),
    {
        let header = ResponseHeader::make(
            h.version_maj,
            h.version_min,
            h.provider,
            h.session,
            h.accept_type,
            0,
            h.opcode,
            status.to_u16(),
        );
        Response { header, body: ResponseBody::new() }
    }

    /// A status-only response whose other header fields are zero, for a
    /// request whose header could not be read.
    pub fn from_status(status: ResponseStatus) -> (r: Response)
        ensures
            r.wf(),
            r.header == ResponseHeader::spec_make(0, 0, 0, 0, 0, 0, 0, status_code(status)),
            r.body@ == Seq::<u8>::empty(),
    {
        let header = ResponseHeader::make(0, 0, 0, 0, 0, 0, 0, status.to_u16());
        Response { header, body: ResponseBody::new() }
    }

    /// The body of the response.
    pub fn body(&self) -> (r: &ResponseBody)
        ensures
            r@ == self.body@,
    {
        &self.body
    }

    /// Replaces the body, and sets the header's body length to its length.
    pub fn set_body(&mut self, body: ResponseBody)
        requires
            body@.len() <= u32::MAX,
        ensures
            final(self).body@ == body@,
            final(self).header.body_len as nat == body@.len(),
            old(self).header.wf() ==> final(self).wf(),
            final(self).header.version_maj == old(self).header.version_maj,
            final(self).header.version_min == old(self).header.version_min,
            final(self).header.provider == old(self).header.provider,
            final(self).header.session == old(self).header.session,
            final(self).header.content_type == old(self).header.content_type,
            final(self).header.opcode == old(self).header.opcode,
            final(self).header.status == old(self).header.status,
            final(self).header.magic_number == old(self).header.magic_number,
            final(self).header.hdr_size == old(self).header.hdr_size,
    {
        self.header.body_len = body.len() as u32;
        self.body = body;
    }

    /// Appends the bytes of the response, header then body, to a stream.
    pub fn write_to_stream(&self, stream: &mut Vec<u8>)
        ensures
            final(stream)@ == old(stream)@ + self.spec_bytes(),
    {
        let h = &self.header;
        let ghost s0 = stream@;
        push_u32(stream, h.magic_number);
        push_u16(stream, h.hdr_size);
        stream.push(h.version_maj);
        stream.push(h.version_min);
        stream.push(h.provider);
        push_u64(stream, h.session);
        stream.push(h.content_type);
        push_u32(stream, h.body_len);
        push_u16(stream, h.opcode);
        push_u16(stream, h.status);
        assert(stream@ == s0 + header_bytes(self.header));
        self.body.write_to_stream(stream);
        assert(stream@ == s0 + self.spec_bytes());
    }

    /// Reads a response from the start of `stream`.
    ///
    /// Fails with `InvalidHeader` where the magic number or the header size is
    /// wrong, and with `ConnectionError` where the stream ends early.
    pub fn read_from_stream(stream: &[u8]) -> (r: Result<Response, ResponseStatus>)
        ensures
            match r {
                Ok(resp) => parse_response(stream@) == Ok::<_, ResponseStatus>(
                    (resp.header, resp.body@),
                ),
                Err(e) => parse_response(stream@) == Err::<(ResponseHeader, Seq<u8>), _>(e),
            },
    {
        if stream.len() < 4 {
            return Err(ResponseStatus::ConnectionError);
        }
        if get_u32(stream, 0) != MAGIC_NUMBER {
            return Err(ResponseStatus::InvalidHeader);
        }
        if stream.len() < 6 {
            return Err(ResponseStatus::ConnectionError);
        }
        if get_u16(stream, 4) != RESPONSE_HDR_SIZE {
            return Err(ResponseStatus::InvalidHeader);
        }
        if stream.len() < RESPONSE_HEADER_LEN {
            return Err(ResponseStatus::ConnectionError);
        }
        let header = ResponseHeader::make(
            stream[6],
            stream[7],
            stream[8],
            get_u64(stream, 9),
            stream[17],
            get_u32(stream, 18),
            get_u16(stream, 22),
            get_u16(stream, 24),
        );
        let body = ResponseBody::read_from_stream(
            stream,
            RESPONSE_HEADER_LEN,
            header.body_len as usize,
        )?;
        Ok(Response { header, body })
    }
}

/// Reading back the bytes of a well-formed response, whatever follows them,
/// gives the response.
pub proof fn lemma_response_round_trip(r: Response, rest: Seq<u8>)
    requires
        r.wf(),
    ensures
        parse_response(r.spec_bytes() + rest) == Ok::<_, ResponseStatus>((r.header, r.body@)),
{
    let h = r.header;
    let s = r.spec_bytes() + rest;
    let hb = header_bytes(h);
    assert(hb.len() == 26);
    assert(s.subrange(0, 26) == hb);
    assert(s.subrange(0, 4) == le32(h.magic_number));
    lemma_read32_le32(h.magic_number, s, 0);
    assert(s.subrange(4, 6) == le16(h.hdr_size));
    lemma_read16_le16(h.hdr_size, s, 4);
    assert(s.subrange(9, 17) == le64(h.session));
    lemma_read64_le64(h.session, s, 9);
    assert(s.subrange(18, 22) == le32(h.body_len));
    lemma_read32_le32(h.body_len, s, 18);
    assert(s.subrange(22, 24) == le16(h.opcode));
    lemma_read16_le16(h.opcode, s, 22);
    assert(s.subrange(24, 26) == le16(h.status));
    lemma_read16_le16(h.status, s, 24);
    assert(s[6] == h.version_maj && s[7] == h.version_min && s[8] == h.provider);
    assert(s[17] == h.content_type);
    assert(header_at(s) == h);
    assert(s.subrange(26, 26 + h.body_len) == r.body@);
}

/// A response frame that does not open with the magic number is refused as an
/// invalid header.
pub proof fn lemma_response_magic_enforced(s: Seq<u8>)
    requires
        s.len() >= 4,
        read32(s, 0) != MAGIC_NUMBER,
    ensures
        parse_response(s) == Err::<(ResponseHeader, Seq<u8>), _>(ResponseStatus::InvalidHeader),
{
}

impl Default for Response {
    fn default() -> (r: Response)
        ensures
            r.wf(),
            r.header == ResponseHeader::spec_make(0, 0, 0, 0, 0, 0, 0, 0),
            r.body@ == Seq::<u8>::empty(),
    {
        Response::new()
    }
}

} // verus!
