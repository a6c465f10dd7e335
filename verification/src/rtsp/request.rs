//! Request serialisation: a builder that writes the request line, header
//! lines, and an optional body with its `Content-Length`, into one byte
//! vector.

use vstd::prelude::*;
use crate::bytes::dec_repr;
use crate::bytes;
use crate::http::version::Version;
use crate::rtsp::method::{method_name, Method};
use crate::rtsp::protocol::rtsp_token;
use crate::rtsp::uri::Uri;

verus! {

/// CR LF.
pub open spec fn crlf() -> Seq<u8> {
    seq![0x0du8, 0x0a]
}

/// `major.minor` in decimal.
pub open spec fn spec_version_text(v: Version) -> Seq<u8> {
    dec_repr(v.0 as nat) + seq![0x2eu8] + dec_repr(v.1 as nat)
}

/// `METHOD SP URI SP RTSP/major.minor CR LF`.
pub open spec fn spec_request_line(m: Method, uri: Seq<u8>, v: Version) -> Seq<u8> {
    method_name(m) + seq![0x20u8] + uri + seq![0x20u8] + rtsp_token() + seq![0x2fu8]
        + spec_version_text(v) + crlf()
}

/// `Name: Value CR LF`.
pub open spec fn spec_header_line(name: Seq<u8>, value: Seq<u8>) -> Seq<u8> {
    name + seq![0x3au8, 0x20u8] + value + crlf()
}

/// The name `Content-Length` as written on the wire.
pub open spec fn content_length_header() -> Seq<u8> {
    seq![0x43u8, 0x6f, 0x6e, 0x74, 0x65, 0x6e, 0x74, 0x2d, 0x4c, 0x65, 0x6e, 0x67, 0x74, 0x68]
}

/// Appends `Name: Value CR LF` to `buf`.
fn push_header_line(buf: &mut Vec<u8>, name: &[u8], value: &[u8])
    ensures
        final(buf)@ == old(buf)@ + spec_header_line(name@, value@),
{
    buf.extend_from_slice(name);
    buf.push(0x3a);
    buf.push(0x20);
    buf.extend_from_slice(value);
    buf.push(0x0d);
    buf.push(0x0a);
    proof {
        assert(buf@ =~= old(buf)@ + spec_header_line(name@, value@));
    }
}

pub struct RequestBuilder {
    method: Method,
    uri: Uri,
    version: Version,
}

pub struct HeaderBuilder {
    buffer: Vec<u8>,
}

pub struct FinalBuilder {
    buffer: Vec<u8>,
}

impl RequestBuilder {
    pub closed spec fn spec_method(&self) -> Method {
        self.method
    }

    pub closed spec fn spec_uri(&self) -> Seq<u8> {
        self.uri.spec_full()
    }

    pub closed spec fn spec_version(&self) -> Version {
        self.version
    }

    /// A builder for a request to `uri` with `method`, at version 1.0.
    pub fn new(uri: Uri, method: Method) -> (r: Self)
        ensures
            r.spec_method() == method,
            r.spec_uri() == uri.spec_full(),
            r.spec_version() == Version(1, 0),
    {
        RequestBuilder { method, uri, version: Version::new(1, 0) }
    }

    pub fn version(self, version: Version) -> (r: Self)
        ensures
            r.spec_method() == self.spec_method(),
            r.spec_uri() == self.spec_uri(),
            r.spec_version() == version,
    {
        RequestBuilder { version, ..self }
    }

    /// Writes the request line and the first header.
    pub fn header(self, key: &[u8], value: &[u8]) -> (r: HeaderBuilder)
        ensures
            r.spec_buffer() == spec_request_line(self.spec_method(), self.spec_uri(), self.spec_version())
                + spec_header_line(key@, value@),
    {
        let mut buffer: Vec<u8> = Vec::new();
        let name = self.method.name_bytes();
        buffer.extend_from_slice(name.as_slice());
        buffer.push(0x20);
        buffer.extend_from_slice(self.uri.full());
        buffer.push(0x20);
        buffer.push(0x52);
        buffer.push(0x54);
        buffer.push(0x53);
        buffer.push(0x50);
        buffer.push(0x2f);
        let major = bytes::u32_to_dec(self.version.0 as u32);
        buffer.extend_from_slice(major.as_slice());
        buffer.push(0x2e);
        let minor = bytes::u32_to_dec(self.version.1 as u32);
        buffer.extend_from_slice(minor.as_slice());
        buffer.push(0x0d);
        buffer.push(0x0a);
        proof {
            assert(buffer@ =~= spec_request_line(
                self.spec_method(),
                self.spec_uri(),
                self.spec_version(),
            ));
        }
        let mut hb = HeaderBuilder { buffer };
        push_header_line(&mut hb.buffer, key, value);
        proof {
            assert(hb.buffer@ =~= spec_request_line(
                self.spec_method(),
                self.spec_uri(),
                self.spec_version(),
            ) + spec_header_line(key@, value@));
        }
        hb
    }
}

impl HeaderBuilder {
    pub closed spec fn spec_buffer(&self) -> Seq<u8> {
        self.buffer@
    }

    /// Writes one more header line.
    pub fn header(self, key: &[u8], value: &[u8]) -> (r: Self)
        ensures
            r.spec_buffer() == self.spec_buffer() + spec_header_line(key@, value@),
    {
        let mut hb = self;
        push_header_line(&mut hb.buffer, key, value);
        hb
    }

    /// Writes `Content-Length`, the blank line, and the body.
    pub fn body(self, body: &[u8]) -> (r: FinalBuilder)
        requires
            body@.len() <= u32::MAX,
        ensures
            r.spec_buffer() == self.spec_buffer() + spec_header_line(
                content_length_header(),
                dec_repr(body@.len()),
            ) + crlf() + body@,
    {
        let mut hb = self;
        let name: Vec<u8> = vec![
            0x43u8, 0x6f, 0x6e, 0x74, 0x65, 0x6e, 0x74, 0x2d, 0x4c, 0x65, 0x6e, 0x67, 0x74, 0x68,
        ];
        proof {
            assert(name@ =~= content_length_header());
        }
        let len32 = body.len() as u32;
        let value = bytes::u32_to_dec(len32);
        push_header_line(&mut hb.buffer, name.as_slice(), value.as_slice());
        hb.buffer.push(0x0d);
        hb.buffer.push(0x0a);
        hb.buffer.extend_from_slice(body);
        proof {
            assert(hb.buffer@ =~= self.spec_buffer() + spec_header_line(
                content_length_header(),
                dec_repr(body@.len()),
            ) + crlf() + body@);
        }
        FinalBuilder { buffer: hb.buffer }
    }

    /// Hands the accumulated header block on unchanged.
    pub fn builder(self) -> (r: Self)
        ensures
            r.spec_buffer() == self.spec_buffer(),
    {
        self
    }

    /// Ends a bodiless request with `Content-Length: 0` and the blank line.
    pub fn result(self) -> (r: Vec<u8>)
        ensures
            r@ == self.spec_buffer() + spec_header_line(content_length_header(), dec_repr(0)) + crlf(),
    {
        let empty: Vec<u8> = Vec::new();
        let fb = self.body(empty.as_slice());
        proof {
            assert(fb.spec_buffer() =~= self.spec_buffer() + spec_header_line(
                content_length_header(),
                dec_repr(0),
            ) + crlf());
        }
        fb.result()
    }

    /// Ends the header block with the blank line alone, with no body and no
    /// `Content-Length`.
    pub fn finish(self) -> (r: Vec<u8>)
        ensures
            r@ == self.spec_buffer() + crlf(),
    {
        let mut hb = self;
        hb.buffer.push(0x0d);
        hb.buffer.push(0x0a);
        proof {
            assert(hb.buffer@ =~= self.spec_buffer() + crlf());
        }
        hb.buffer
    }
}

impl FinalBuilder {
    pub closed spec fn spec_buffer(&self) -> Seq<u8> {
        self.buffer@
    }

    pub fn result(self) -> (r: Vec<u8>)
        ensures
            r@ == self.spec_buffer(),
    {
        self.buffer
    }
}

#[derive(Debug, Clone, Copy, PartialEq, Eq, Structural)]
pub enum SerializeError {
    BufferTooSmall,
}

/// Copies a serialised request into a caller-supplied slice; fails exactly
/// when the slice is too small, writing nothing.
pub fn serialize_into(data: &[u8], buf: &mut [u8]) -> (r: Result<usize, SerializeError>)
    ensures
        r matches Ok(n) ==> n == data@.len() && data@.len() <= old(buf)@.len() && final(buf)@
            =~= data@ + old(buf)@.subrange(data@.len() as int, old(buf)@.len() as int),
        r is Err <==> data@.len() > old(buf)@.len(),
        r is Err ==> final(buf)@ == old(buf)@,
{
    if data.len() > buf.len() {
        return Err(SerializeError::BufferTooSmall);
    }
    let mut i: usize = 0;
    while i < data.len()
        invariant
            0 <= i <= data@.len() <= buf@.len(),
            buf@.len() == old(buf)@.len(),
            forall|k: int| 0 <= k < i ==> buf@[k] == data@[k],
            forall|k: int| i <= k < buf@.len() ==> buf@[k] == old(buf)@[k],
        decreases data@.len() - i,
    {
        let b = data[i];
        buf[i] = b;
        i = i + 1;
    }
    Ok(data.len())
}

} // verus!
