//! The authenticator: Basic and Digest answers to a server challenge.

use vstd::prelude::*;
use crate::rtsp::method::Method;
use crate::rtsp::uri::Uri;
use crate::bytes::{all_ascii, find_index, lemma_find_index};
use crate::bytes;

verus! {

#[verifier::external_type_specification]
#[verifier::external_body]
pub struct ExWwwAuthenticateHeader(digest_auth::WwwAuthenticateHeader);

#[verifier::external_type_specification]
#[verifier::external_body]
pub struct ExDigestError(digest_auth::Error);

#[derive(Debug)]
pub enum AuthorizerError {
    InvalidHeader,
    UnknownType,
    DigestAuthError(digest_auth::Error),
}

/// The base64 standard-alphabet padded encoding of `data`.
pub uninterp spec fn b64_of(data: Seq<u8>) -> Seq<u8>;

/// Relies on base64's `BASE64_STANDARD.encode`: the encoding is a function
/// of the input bytes alone.
#[verifier::external_body]
fn b64_encode(data: &[u8]) -> (r: Vec<u8>)
    ensures
        r@ == b64_of(data@),
{
    base64::Engine::encode(&base64::prelude::BASE64_STANDARD, data).into_bytes()
}

/// Relies on `digest_auth::WwwAuthenticateHeader::parse`, which accepts a
/// well-formed Digest challenge. The outside parser indexes the text by
/// character ordinals, which on a multi-byte character land inside a byte
/// sequence and abort; only ASCII challenges are admitted.
#[verifier::external_body]
fn parse_challenge(value: &[u8]) -> (r: Result<digest_auth::WwwAuthenticateHeader, AuthorizerError>)
    requires
        all_ascii(value@),
{
    match core::str::from_utf8(value) {
        Ok(s) => match digest_auth::WwwAuthenticateHeader::parse(s) {
            Ok(h) => Ok(h),
            Err(e) => Err(AuthorizerError::DigestAuthError(e)),
        },
        Err(_) => Err(AuthorizerError::InvalidHeader),
    }
}

/// `Digest ` with its trailing space, the start of every Digest answer.
pub open spec fn digest_prefix() -> Seq<u8> {
    seq![0x44u8, 0x69, 0x67, 0x65, 0x73, 0x74, 0x20]
}

/// Relies on `digest_auth::WwwAuthenticateHeader::respond` and the
/// `AuthorizationHeader` display form, which writes `Digest ` and then the
/// parameters. The client nonce is drawn at random, so only the prefix is
/// stated; the nonce count in the challenge advances on success.
#[verifier::external_body]
fn digest_respond(
    h: &mut digest_auth::WwwAuthenticateHeader,
    username: &[u8],
    password: &[u8],
    path: &[u8],
    method: &str,
) -> (r: Result<Vec<u8>, AuthorizerError>)
    ensures
        r matches Ok(v) ==> v@.len() >= 7 && v@.subrange(0, 7) == digest_prefix(),
{
    let context = digest_auth::AuthContext::new_with_method(
        String::from_utf8_lossy(username).into_owned(),
        String::from_utf8_lossy(password).into_owned(),
        String::from_utf8_lossy(path).into_owned(),
        Option::<&'_ [u8]>::None,
        digest_auth::HttpMethod(std::borrow::Cow::Borrowed(method)),
    );
    match h.respond(&context) {
        Ok(answer) => Ok(answer.to_string().into_bytes()),
        Err(e) => Err(AuthorizerError::DigestAuthError(e)),
    }
}

/// `Basic ` with its trailing space.
pub open spec fn basic_prefix() -> Seq<u8> {
    seq![0x42u8, 0x61, 0x73, 0x69, 0x63, 0x20]
}

/// The full Basic answer for a credential pair.
pub open spec fn spec_basic_answer(user: Seq<u8>, pass: Seq<u8>) -> Seq<u8> {
    basic_prefix() + b64_of(user + seq![0x3au8] + pass)
}

pub struct Basic {
    auth: Vec<u8>,
}

impl Basic {
    pub closed spec fn spec_auth(&self) -> Seq<u8> {
        self.auth@
    }

    /// Precomputes `Basic <base64(user:pass)>`.
    pub fn new(username: &[u8], password: &[u8]) -> (r: Self)
        ensures
            r.spec_auth() == spec_basic_answer(username@, password@),
    {
        let mut credentials: Vec<u8> = Vec::new();
        credentials.extend_from_slice(username);
        credentials.push(0x3a);
        credentials.extend_from_slice(password);
        proof {
            assert(credentials@ =~= username@ + seq![0x3au8] + password@);
        }
        let encoded = b64_encode(credentials.as_slice());
        let mut auth: Vec<u8> = vec![0x42u8, 0x61, 0x73, 0x69, 0x63, 0x20];
        auth.extend_from_slice(encoded.as_slice());
        proof {
            assert(auth@ =~= spec_basic_answer(username@, password@));
        }
        Basic { auth }
    }

    fn answer(&mut self) -> (r: Result<Vec<u8>, AuthorizerError>)
        ensures
            *final(self) == *old(self),
            r matches Ok(v) && v@ == old(self).spec_auth(),
    {
        let v = bytes::copy_range(self.auth.as_slice(), 0, self.auth.len());
        proof {
            assert(v@ =~= self.auth@);
        }
        Ok(v)
    }
}

pub struct Digest {
    username: Vec<u8>,
    password: Vec<u8>,
    www_authenticate: digest_auth::WwwAuthenticateHeader,
}

impl Digest {
    pub closed spec fn spec_username(&self) -> Seq<u8> {
        self.username@
    }

    pub closed spec fn spec_password(&self) -> Seq<u8> {
        self.password@
    }

    /// Keeps the credentials and the parsed challenge; fails when the
    /// challenge itself does not parse. Only ASCII challenges are admitted:
    /// the outside parser aborts inside a multi-byte character.
    pub fn new(username: &[u8], password: &[u8], www_authenticate: &[u8]) -> (r: Result<
        Digest,
        AuthorizerError,
    >)
        requires
            all_ascii(www_authenticate@),
        ensures
            r matches Ok(d) ==> d.spec_username() == username@ && d.spec_password() == password@,
    {
        match parse_challenge(www_authenticate) {
            Result::Ok(h) => Ok(
                Digest {
                    username: bytes::copy_to_vec(username),
                    password: bytes::copy_to_vec(password),
                    www_authenticate: h,
                },
            ),
            Result::Err(e) => Err(e),
        }
    }

    /// A Digest answer for one request; the nonce count advances.
    fn answer(&mut self, method: Method, url: &Uri) -> (r: Result<Vec<u8>, AuthorizerError>)
        ensures
            final(self).spec_username() == old(self).spec_username(),
            final(self).spec_password() == old(self).spec_password(),
            r matches Ok(v) ==> v@.len() >= 7 && v@.subrange(0, 7) == digest_prefix(),
    {
        let path = bytes::copy_to_vec(url.path());
        digest_respond(
            &mut self.www_authenticate,
            self.username.as_slice(),
            self.password.as_slice(),
            path.as_slice(),
            method.as_str(),
        )
    }
}

pub enum Authorizer {
    Basic(Basic),
    Digest(Digest),
}

/// The scheme token `Basic`.
pub open spec fn basic_token() -> Seq<u8> {
    seq![0x42u8, 0x61, 0x73, 0x69, 0x63]
}

/// The scheme token `Digest`.
pub open spec fn digest_token() -> Seq<u8> {
    seq![0x44u8, 0x69, 0x67, 0x65, 0x73, 0x74]
}

impl Authorizer {
    /// What the answer looks like: exact for Basic, pinned to its prefix
    /// for Digest, whose client nonce is random.
    pub open spec fn answer_shape(&self, v: Seq<u8>) -> bool {
        match self {
            Authorizer::Basic(b) => v == b.spec_auth(),
            Authorizer::Digest(_) => v.len() >= 7 && v.subrange(0, 7) == digest_prefix(),
        }
    }

    /// The `Authorization` value for one request. Stateful for Digest,
    /// whose nonce count advances; the Basic answer never changes.
    pub fn answer(&mut self, method: Method, url: &Uri) -> (r: Result<Vec<u8>, AuthorizerError>)
        ensures
            *old(self) matches Authorizer::Basic(b) ==> (*final(self) == *old(self) && (r matches Ok(v)
                && v@ == b.spec_auth())),
            *old(self) matches Authorizer::Digest(d) ==> (*final(self) matches Authorizer::Digest(d2)
                && d2.spec_username() == d.spec_username() && d2.spec_password()
                == d.spec_password()),
            r matches Ok(v) ==> old(self).answer_shape(v@),
    {
        match self {
            Authorizer::Basic(basic) => basic.answer(),
            Authorizer::Digest(digest) => digest.answer(method, url),
        }
    }

    /// Builds an authorizer from a `WWW-Authenticate` value: the scheme
    /// token up to the first space picks Basic or Digest; a missing space
    /// is an invalid header, an unknown scheme is refused. Only ASCII
    /// values are admitted: the outside Digest parser aborts inside a
    /// multi-byte character.
    pub fn new(user: &[u8], pass: &[u8], www_auth: &[u8]) -> (r: Result<Authorizer, AuthorizerError>)
        requires
            all_ascii(www_auth@),
        ensures
            (match find_index(www_auth@, 0x20, 0) {
                Option::None => r matches Err(e) && e is InvalidHeader,
                Option::Some(sp) => {
                    let scheme = www_auth@.subrange(0, sp);
                    if scheme == basic_token() {
                        r matches Ok(a) && a matches Authorizer::Basic(b) && b.spec_auth()
                            == spec_basic_answer(user@, pass@)
                    } else if scheme == digest_token() {
                        r matches Ok(a) ==> (a matches Authorizer::Digest(d) && d.spec_username()
                            == user@ && d.spec_password() == pass@)
                    } else {
                        r matches Err(e) && e is UnknownType
                    }
                },
            }),
    {
        proof {
            lemma_find_index(www_auth@, 0x20, 0);
        }
        match bytes::find_byte(www_auth, 0, www_auth.len(), 0x20) {
            Option::None => {
                proof {
                    match find_index(www_auth@, 0x20, 0) {
                        Option::None => {},
                        Option::Some(i) => {
                            assert(www_auth@[i] == 0x20);
                        },
                    }
                }
                Err(AuthorizerError::InvalidHeader)
            },
            Option::Some(sp) => {
                proof {
                    match find_index(www_auth@, 0x20, 0) {
                        Option::None => {
                            assert(false);
                        },
                        Option::Some(i) => {
                            assert(i == sp);
                        },
                    }
                }
                let scheme = vstd::slice::slice_subrange(www_auth, 0, sp);
                let auth_data = vstd::slice::slice_subrange(www_auth, sp + 1, www_auth.len());
                let basic: Vec<u8> = vec![0x42u8, 0x61, 0x73, 0x69, 0x63];
                let digest: Vec<u8> = vec![0x44u8, 0x69, 0x67, 0x65, 0x73, 0x74];
                proof {
                    assert(basic@ =~= basic_token());
                    assert(digest@ =~= digest_token());
                }
                if crate::rtsp::method::bytes_eq(scheme, basic.as_slice()) {
                    Ok(Authorizer::Basic(Basic::new(user, pass)))
                } else if crate::rtsp::method::bytes_eq(scheme, digest.as_slice()) {
                    match Digest::new(user, pass, auth_data) {
                        Result::Ok(d) => Ok(Authorizer::Digest(d)),
                        Result::Err(e) => Err(e),
                    }
                } else {
                    Err(AuthorizerError::UnknownType)
                }
            },
        }
    }
}

} // verus!
