//! RTSP status codes, the closed set a response may carry.

use vstd::prelude::*;
use crate::bytes::{parse_u32, parse_u32_spec, ParseIntError};

verus! {

#[derive(Debug, Clone, Copy, PartialEq, Eq, Structural)]
pub enum Status {
    Continue,
    OK,
    Created,
    LowOnStorageSpace,
    MultipleChoices,
    MovedPermanently,
    MovedTemporarily,
    SeeOther,
    NotModified,
    UseProxy,
    BadRequest,
    Unauthorized,
    PaymentRequired,
    Forbidden,
    NotFound,
    MethodNotAllowed,
    NotAcceptable,
    ProxyAuthenticationRequired,
    RequestTimeout,
    Gone,
    LengthRequired,
    PreconditionFailed,
    RequestEntityTooLarge,
    RequestURITooLarge,
    UnsupportedMediaType,
    ParameterNotUnderstood,
    ConferenceNotFound,
    NotEnoughBandwidth,
    SessionNotFound,
    MethodNotValidInThisState,
    HeaderFieldNotValidForResource,
    InvalidRange,
    ParameterIsReadOnly,
    AggregateOperationNotAllowed,
    OnlyAggregateOperationAllowed,
    UnsupportedTransport,
    DestinationUnreachable,
    InternalServerError,
    NotImplemented,
    BadGateway,
    ServiceUnavailable,
    GatewayTimeout,
    RTSPVersionNotSupported,
    OptionNotSupported,
}

/// A status code outside the closed set.
#[derive(Debug, Clone, Copy, PartialEq, Eq, Structural)]
pub struct InvalidStatusError {
    pub status: u32,
}

impl InvalidStatusError {
    pub fn new(status: u32) -> (r: Self)
        ensures
            r.status == status,
    {
        InvalidStatusError { status }
    }
}

/// The numeric code of a status.
pub open spec fn spec_code(s: Status) -> u32 {
    match s {
        Status::Continue => 100,
        Status::OK => 200,
        Status::Created => 201,
        Status::LowOnStorageSpace => 250,
        Status::MultipleChoices => 300,
        Status::MovedPermanently => 301,
        Status::MovedTemporarily => 302,
        Status::SeeOther => 303,
        Status::NotModified => 304,
        Status::UseProxy => 305,
        Status::BadRequest => 400,
        Status::Unauthorized => 401,
        Status::PaymentRequired => 402,
        Status::Forbidden => 403,
        Status::NotFound => 404,
        Status::MethodNotAllowed => 405,
        Status::NotAcceptable => 406,
        Status::ProxyAuthenticationRequired => 407,
        Status::RequestTimeout => 408,
        Status::Gone => 410,
        Status::LengthRequired => 411,
        Status::PreconditionFailed => 412,
        Status::RequestEntityTooLarge => 413,
        Status::RequestURITooLarge => 414,
        Status::UnsupportedMediaType => 415,
        Status::ParameterNotUnderstood => 451,
        Status::ConferenceNotFound => 452,
        Status::NotEnoughBandwidth => 453,
        Status::SessionNotFound => 454,
        Status::MethodNotValidInThisState => 455,
        Status::HeaderFieldNotValidForResource => 456,
        Status::InvalidRange => 457,
        Status::ParameterIsReadOnly => 458,
        Status::AggregateOperationNotAllowed => 459,
        Status::OnlyAggregateOperationAllowed => 460,
        Status::UnsupportedTransport => 461,
        Status::DestinationUnreachable => 462,
        Status::InternalServerError => 500,
        Status::NotImplemented => 501,
        Status::BadGateway => 502,
        Status::ServiceUnavailable => 503,
        Status::GatewayTimeout => 504,
        Status::RTSPVersionNotSupported => 505,
        Status::OptionNotSupported => 551,
    }
}

/// The status a numeric code names, if any.
pub open spec fn spec_from_code(c: u32) -> Option<Status> {
    if c == 100 {
        Some(Status::Continue)
    } else if c == 200 {
        Some(Status::OK)
    } else if c == 201 {
        Some(Status::Created)
    } else if c == 250 {
        Some(Status::LowOnStorageSpace)
    } else if c == 300 {
        Some(Status::MultipleChoices)
    } else if c == 301 {
        Some(Status::MovedPermanently)
    } else if c == 302 {
        Some(Status::MovedTemporarily)
    } else if c == 303 {
        Some(Status::SeeOther)
    } else if c == 304 {
        Some(Status::NotModified)
    } else if c == 305 {
        Some(Status::UseProxy)
    } else if c == 400 {
        Some(Status::BadRequest)
    } else if c == 401 {
        Some(Status::Unauthorized)
    } else if c == 402 {
        Some(Status::PaymentRequired)
    } else if c == 403 {
        Some(Status::Forbidden)
    } else if c == 404 {
        Some(Status::NotFound)
    } else if c == 405 {
        Some(Status::MethodNotAllowed)
    } else if c == 406 {
        Some(Status::NotAcceptable)
    } else if c == 407 {
        Some(Status::ProxyAuthenticationRequired)
    } else if c == 408 {
        Some(Status::RequestTimeout)
    } else if c == 410 {
        Some(Status::Gone)
    } else if c == 411 {
        Some(Status::LengthRequired)
    } else if c == 412 {
        Some(Status::PreconditionFailed)
    } else if c == 413 {
        Some(Status::RequestEntityTooLarge)
    } else if c == 414 {
        Some(Status::RequestURITooLarge)
    } else if c == 415 {
        Some(Status::UnsupportedMediaType)
    } else if c == 451 {
        Some(Status::ParameterNotUnderstood)
    } else if c == 452 {
        Some(Status::ConferenceNotFound)
    } else if c == 453 {
        Some(Status::NotEnoughBandwidth)
    } else if c == 454 {
        Some(Status::SessionNotFound)
    } else if c == 455 {
        Some(Status::MethodNotValidInThisState)
    } else if c == 456 {
        Some(Status::HeaderFieldNotValidForResource)
    } else if c == 457 {
        Some(Status::InvalidRange)
    } else if c == 458 {
        Some(Status::ParameterIsReadOnly)
    } else if c == 459 {
        Some(Status::AggregateOperationNotAllowed)
    } else if c == 460 {
        Some(Status::OnlyAggregateOperationAllowed)
    } else if c == 461 {
        Some(Status::UnsupportedTransport)
    } else if c == 462 {
        Some(Status::DestinationUnreachable)
    } else if c == 500 {
        Some(Status::InternalServerError)
    } else if c == 501 {
        Some(Status::NotImplemented)
    } else if c == 502 {
        Some(Status::BadGateway)
    } else if c == 503 {
        Some(Status::ServiceUnavailable)
    } else if c == 504 {
        Some(Status::GatewayTimeout)
    } else if c == 505 {
        Some(Status::RTSPVersionNotSupported)
    } else if c == 551 {
        Some(Status::OptionNotSupported)
    } else {
        None
    }
}

/// The reason phrase of a status.
pub open spec fn spec_reason(s: Status) -> Seq<u8> {
    match s {
        Status::Continue => seq![0x43u8, 0x6f, 0x6e, 0x74, 0x69, 0x6e, 0x75, 0x65],
        Status::OK => seq![0x4fu8, 0x4b],
        Status::Created => seq![0x43u8, 0x72, 0x65, 0x61, 0x74, 0x65, 0x64],
        Status::LowOnStorageSpace => seq![0x4cu8, 0x6f, 0x77, 0x20, 0x6f, 0x6e, 0x20, 0x53, 0x74, 0x6f, 0x72, 0x61, 0x67, 0x65, 0x20, 0x53, 0x70, 0x61, 0x63, 0x65],
        Status::MultipleChoices => seq![0x4du8, 0x75, 0x6c, 0x74, 0x69, 0x70, 0x6c, 0x65, 0x20, 0x43, 0x68, 0x6f, 0x69, 0x63, 0x65, 0x73],
        Status::MovedPermanently => seq![0x4du8, 0x6f, 0x76, 0x65, 0x64, 0x20, 0x50, 0x65, 0x72, 0x6d, 0x61, 0x6e, 0x65, 0x6e, 0x74, 0x6c, 0x79],
        Status::MovedTemporarily => seq![0x4du8, 0x6f, 0x76, 0x65, 0x64, 0x20, 0x54, 0x65, 0x6d, 0x70, 0x6f, 0x72, 0x61, 0x72, 0x69, 0x6c, 0x79],
        Status::SeeOther => seq![0x53u8, 0x65, 0x65, 0x20, 0x4f, 0x74, 0x68, 0x65, 0x72],
        Status::NotModified => seq![0x4eu8, 0x6f, 0x74, 0x20, 0x4d, 0x6f, 0x64, 0x69, 0x66, 0x69, 0x65, 0x64],
        Status::UseProxy => seq![0x55u8, 0x73, 0x65, 0x20, 0x50, 0x72, 0x6f, 0x78, 0x79],
        Status::BadRequest => seq![0x42u8, 0x61, 0x64, 0x20, 0x52, 0x65, 0x71, 0x75, 0x65, 0x73, 0x74],
        Status::Unauthorized => seq![0x55u8, 0x6e, 0x61, 0x75, 0x74, 0x68, 0x6f, 0x72, 0x69, 0x7a, 0x65, 0x64],
        Status::PaymentRequired => seq![0x50u8, 0x61, 0x79, 0x6d, 0x65, 0x6e, 0x74, 0x20, 0x52, 0x65, 0x71, 0x75, 0x69, 0x72, 0x65, 0x64],
        Status::Forbidden => seq![0x46u8, 0x6f, 0x72, 0x62, 0x69, 0x64, 0x64, 0x65, 0x6e],
        Status::NotFound => seq![0x53u8, 0x74, 0x72, 0x65, 0x61, 0x6d, 0x20, 0x4e, 0x6f, 0x74, 0x20, 0x46, 0x6f, 0x75, 0x6e, 0x64],
        Status::MethodNotAllowed => seq![0x4du8, 0x65, 0x74, 0x68, 0x6f, 0x64, 0x20, 0x4e, 0x6f, 0x74, 0x20, 0x41, 0x6c, 0x6c, 0x6f, 0x77, 0x65, 0x64],
        Status::NotAcceptable => seq![0x4eu8, 0x6f, 0x74, 0x20, 0x41, 0x63, 0x63, 0x65, 0x70, 0x74, 0x61, 0x62, 0x6c, 0x65],
        Status::ProxyAuthenticationRequired => seq![0x50u8, 0x72, 0x6f, 0x78, 0x79, 0x20, 0x41, 0x75, 0x74, 0x68, 0x65, 0x6e, 0x74, 0x69, 0x63, 0x61, 0x74, 0x69, 0x6f, 0x6e, 0x20, 0x52, 0x65, 0x71, 0x75, 0x69, 0x72, 0x65, 0x64],
        Status::RequestTimeout => seq![0x52u8, 0x65, 0x71, 0x75, 0x65, 0x73, 0x74, 0x20, 0x54, 0x69, 0x6d, 0x65, 0x6f, 0x75, 0x74],
        Status::Gone => seq![0x47u8, 0x6f, 0x6e, 0x65],
        Status::LengthRequired => seq![0x4cu8, 0x65, 0x6e, 0x67, 0x74, 0x68, 0x20, 0x52, 0x65, 0x71, 0x75, 0x69, 0x72, 0x65, 0x64],
        Status::PreconditionFailed => seq![0x50u8, 0x72, 0x65, 0x63, 0x6f, 0x6e, 0x64, 0x69, 0x74, 0x69, 0x6f, 0x6e, 0x20, 0x46, 0x61, 0x69, 0x6c, 0x65, 0x64],
        Status::RequestEntityTooLarge => seq![0x52u8, 0x65, 0x71, 0x75, 0x65, 0x73, 0x74, 0x20, 0x45, 0x6e, 0x74, 0x69, 0x74, 0x79, 0x20, 0x54, 0x6f, 0x6f, 0x20, 0x4c, 0x61, 0x72, 0x67, 0x65],
        Status::RequestURITooLarge => seq![0x52u8, 0x65, 0x71, 0x75, 0x65, 0x73, 0x74, 0x20, 0x55, 0x52, 0x49, 0x20, 0x54, 0x6f, 0x6f, 0x20, 0x4c, 0x61, 0x72, 0x67, 0x65],
        Status::UnsupportedMediaType => seq![0x55u8, 0x6e, 0x73, 0x75, 0x70, 0x70, 0x6f, 0x72, 0x74, 0x65, 0x64, 0x20, 0x4d, 0x65, 0x64, 0x69, 0x61, 0x20, 0x54, 0x79, 0x70, 0x65],
        Status::ParameterNotUnderstood => seq![0x50u8, 0x61, 0x72, 0x61, 0x6d, 0x65, 0x74, 0x65, 0x72, 0x20, 0x4e, 0x6f, 0x74, 0x20, 0x55, 0x6e, 0x64, 0x65, 0x72, 0x73, 0x74, 0x6f, 0x6f, 0x64],
        Status::ConferenceNotFound => seq![0x43u8, 0x6f, 0x6e, 0x66, 0x65, 0x72, 0x65, 0x6e, 0x63, 0x65, 0x20, 0x4e, 0x6f, 0x74, 0x20, 0x46, 0x6f, 0x75, 0x6e, 0x64],
        Status::NotEnoughBandwidth => seq![0x4eu8, 0x6f, 0x74, 0x20, 0x45, 0x6e, 0x6f, 0x75, 0x67, 0x68, 0x20, 0x42, 0x61, 0x6e, 0x64, 0x77, 0x69, 0x64, 0x74, 0x68],
        Status::SessionNotFound => seq![0x53u8, 0x65, 0x73, 0x73, 0x69, 0x6f, 0x6e, 0x20, 0x4e, 0x6f, 0x74, 0x20, 0x46, 0x6f, 0x75, 0x6e, 0x64],
        Status::MethodNotValidInThisState => seq![0x4du8, 0x65, 0x74, 0x68, 0x6f, 0x64, 0x20, 0x4e, 0x6f, 0x74, 0x20, 0x56, 0x61, 0x6c, 0x69, 0x64, 0x20, 0x49, 0x6e, 0x20, 0x54, 0x68, 0x69, 0x73, 0x20, 0x53, 0x74, 0x61, 0x74, 0x65],
        Status::HeaderFieldNotValidForResource => seq![0x48u8, 0x65, 0x61, 0x64, 0x65, 0x72, 0x20, 0x46, 0x69, 0x65, 0x6c, 0x64, 0x20, 0x4e, 0x6f, 0x74, 0x20, 0x56, 0x61, 0x6c, 0x69, 0x64, 0x20, 0x46, 0x6f, 0x72, 0x20, 0x52, 0x65, 0x73, 0x6f, 0x75, 0x72, 0x63, 0x65],
        Status::InvalidRange => seq![0x49u8, 0x6e, 0x76, 0x61, 0x6c, 0x69, 0x64, 0x20, 0x52, 0x61, 0x6e, 0x67, 0x65],
        Status::ParameterIsReadOnly => seq![0x50u8, 0x61, 0x72, 0x61, 0x6d, 0x65, 0x74, 0x65, 0x72, 0x20, 0x49, 0x73, 0x20, 0x52, 0x65, 0x61, 0x64, 0x20, 0x4f, 0x6e, 0x6c, 0x79],
        Status::AggregateOperationNotAllowed => seq![0x41u8, 0x67, 0x67, 0x72, 0x65, 0x67, 0x61, 0x74, 0x65, 0x20, 0x4f, 0x70, 0x65, 0x72, 0x61, 0x74, 0x69, 0x6f, 0x6e, 0x20, 0x4e, 0x6f, 0x74, 0x20, 0x41, 0x6c, 0x6c, 0x6f, 0x77, 0x65, 0x64],
        Status::OnlyAggregateOperationAllowed => seq![0x4fu8, 0x6e, 0x6c, 0x79, 0x20, 0x41, 0x67, 0x67, 0x72, 0x65, 0x67, 0x61, 0x74, 0x65, 0x20, 0x4f, 0x70, 0x65, 0x72, 0x61, 0x74, 0x69, 0x6f, 0x6e, 0x20, 0x41, 0x6c, 0x6c, 0x6f, 0x77, 0x65, 0x64],
        Status::UnsupportedTransport => seq![0x55u8, 0x6e, 0x73, 0x75, 0x70, 0x70, 0x6f, 0x72, 0x74, 0x65, 0x64, 0x20, 0x54, 0x72, 0x61, 0x6e, 0x73, 0x70, 0x6f, 0x72, 0x74],
        Status::DestinationUnreachable => seq![0x44u8, 0x65, 0x73, 0x74, 0x69, 0x6e, 0x61, 0x74, 0x69, 0x6f, 0x6e, 0x20, 0x55, 0x6e, 0x72, 0x65, 0x61, 0x63, 0x68, 0x61, 0x62, 0x6c, 0x65],
        Status::InternalServerError => seq![0x49u8, 0x6e, 0x74, 0x65, 0x72, 0x6e, 0x61, 0x6c, 0x20, 0x53, 0x65, 0x72, 0x76, 0x65, 0x72, 0x20, 0x45, 0x72, 0x72, 0x6f, 0x72],
        Status::NotImplemented => seq![0x4eu8, 0x6f, 0x74, 0x20, 0x49, 0x6d, 0x70, 0x6c, 0x65, 0x6d, 0x65, 0x6e, 0x74, 0x65, 0x64],
        Status::BadGateway => seq![0x42u8, 0x61, 0x64, 0x20, 0x47, 0x61, 0x74, 0x65, 0x77, 0x61, 0x79],
        Status::ServiceUnavailable => seq![0x53u8, 0x65, 0x72, 0x76, 0x69, 0x63, 0x65, 0x20, 0x55, 0x6e, 0x61, 0x76, 0x61, 0x69, 0x6c, 0x61, 0x62, 0x6c, 0x65],
        Status::GatewayTimeout => seq![0x47u8, 0x61, 0x74, 0x65, 0x77, 0x61, 0x79, 0x20, 0x54, 0x69, 0x6d, 0x65, 0x6f, 0x75, 0x74],
        Status::RTSPVersionNotSupported => seq![0x52u8, 0x54, 0x53, 0x50, 0x20, 0x56, 0x65, 0x72, 0x73, 0x69, 0x6f, 0x6e, 0x20, 0x4e, 0x6f, 0x74, 0x20, 0x53, 0x75, 0x70, 0x70, 0x6f, 0x72, 0x74, 0x65, 0x64],
        Status::OptionNotSupported => seq![0x4fu8, 0x70, 0x74, 0x69, 0x6f, 0x6e, 0x20, 0x4e, 0x6f, 0x74, 0x20, 0x53, 0x75, 0x70, 0x70, 0x6f, 0x72, 0x74, 0x65, 0x64],
    }
}

impl Status {
    /// The numeric code of this status.
    pub fn code(&self) -> (r: u32)
        ensures
            r == spec_code(*self),
    {
        match self {
            Status::Continue => 100,
            Status::OK => 200,
            Status::Created => 201,
            Status::LowOnStorageSpace => 250,
            Status::MultipleChoices => 300,
            Status::MovedPermanently => 301,
            Status::MovedTemporarily => 302,
            Status::SeeOther => 303,
            Status::NotModified => 304,
            Status::UseProxy => 305,
            Status::BadRequest => 400,
            Status::Unauthorized => 401,
            Status::PaymentRequired => 402,
            Status::Forbidden => 403,
            Status::NotFound => 404,
            Status::MethodNotAllowed => 405,
            Status::NotAcceptable => 406,
            Status::ProxyAuthenticationRequired => 407,
            Status::RequestTimeout => 408,
            Status::Gone => 410,
            Status::LengthRequired => 411,
            Status::PreconditionFailed => 412,
            Status::RequestEntityTooLarge => 413,
            Status::RequestURITooLarge => 414,
            Status::UnsupportedMediaType => 415,
            Status::ParameterNotUnderstood => 451,
            Status::ConferenceNotFound => 452,
            Status::NotEnoughBandwidth => 453,
            Status::SessionNotFound => 454,
            Status::MethodNotValidInThisState => 455,
            Status::HeaderFieldNotValidForResource => 456,
            Status::InvalidRange => 457,
            Status::ParameterIsReadOnly => 458,
            Status::AggregateOperationNotAllowed => 459,
            Status::OnlyAggregateOperationAllowed => 460,
            Status::UnsupportedTransport => 461,
            Status::DestinationUnreachable => 462,
            Status::InternalServerError => 500,
            Status::NotImplemented => 501,
            Status::BadGateway => 502,
            Status::ServiceUnavailable => 503,
            Status::GatewayTimeout => 504,
            Status::RTSPVersionNotSupported => 505,
            Status::OptionNotSupported => 551,
        }
    }

    /// The status a numeric code names; a code outside the closed set is
    /// returned in the error.
    pub fn from_code(value: u32) -> (r: Result<Status, InvalidStatusError>)
        ensures
            r matches Ok(s) ==> spec_from_code(value) == Some(s),
            r matches Err(e) ==> spec_from_code(value) is None && e.status == value,
    {
        match value {
            100 => Ok(Status::Continue),
            200 => Ok(Status::OK),
            201 => Ok(Status::Created),
            250 => Ok(Status::LowOnStorageSpace),
            300 => Ok(Status::MultipleChoices),
            301 => Ok(Status::MovedPermanently),
            302 => Ok(Status::MovedTemporarily),
            303 => Ok(Status::SeeOther),
            304 => Ok(Status::NotModified),
            305 => Ok(Status::UseProxy),
            400 => Ok(Status::BadRequest),
            401 => Ok(Status::Unauthorized),
            402 => Ok(Status::PaymentRequired),
            403 => Ok(Status::Forbidden),
            404 => Ok(Status::NotFound),
            405 => Ok(Status::MethodNotAllowed),
            406 => Ok(Status::NotAcceptable),
            407 => Ok(Status::ProxyAuthenticationRequired),
            408 => Ok(Status::RequestTimeout),
            410 => Ok(Status::Gone),
            411 => Ok(Status::LengthRequired),
            412 => Ok(Status::PreconditionFailed),
            413 => Ok(Status::RequestEntityTooLarge),
            414 => Ok(Status::RequestURITooLarge),
            415 => Ok(Status::UnsupportedMediaType),
            451 => Ok(Status::ParameterNotUnderstood),
            452 => Ok(Status::ConferenceNotFound),
            453 => Ok(Status::NotEnoughBandwidth),
            454 => Ok(Status::SessionNotFound),
            455 => Ok(Status::MethodNotValidInThisState),
            456 => Ok(Status::HeaderFieldNotValidForResource),
            457 => Ok(Status::InvalidRange),
            458 => Ok(Status::ParameterIsReadOnly),
            459 => Ok(Status::AggregateOperationNotAllowed),
            460 => Ok(Status::OnlyAggregateOperationAllowed),
            461 => Ok(Status::UnsupportedTransport),
            462 => Ok(Status::DestinationUnreachable),
            500 => Ok(Status::InternalServerError),
            501 => Ok(Status::NotImplemented),
            502 => Ok(Status::BadGateway),
            503 => Ok(Status::ServiceUnavailable),
            504 => Ok(Status::GatewayTimeout),
            505 => Ok(Status::RTSPVersionNotSupported),
            551 => Ok(Status::OptionNotSupported),
            _ => Err(InvalidStatusError::new(value)),
        }
    }

    /// The reason phrase of this status.
    pub fn reason_phrase(&self) -> (r: Vec<u8>)
        ensures
            r@ == spec_reason(*self),
    {
        let r: Vec<u8> = match self {
            Status::Continue => vec![0x43u8, 0x6f, 0x6e, 0x74, 0x69, 0x6e, 0x75, 0x65],
            Status::OK => vec![0x4fu8, 0x4b],
            Status::Created => vec![0x43u8, 0x72, 0x65, 0x61, 0x74, 0x65, 0x64],
            Status::LowOnStorageSpace => vec![0x4cu8, 0x6f, 0x77, 0x20, 0x6f, 0x6e, 0x20, 0x53, 0x74, 0x6f, 0x72, 0x61, 0x67, 0x65, 0x20, 0x53, 0x70, 0x61, 0x63, 0x65],
            Status::MultipleChoices => vec![0x4du8, 0x75, 0x6c, 0x74, 0x69, 0x70, 0x6c, 0x65, 0x20, 0x43, 0x68, 0x6f, 0x69, 0x63, 0x65, 0x73],
            Status::MovedPermanently => vec![0x4du8, 0x6f, 0x76, 0x65, 0x64, 0x20, 0x50, 0x65, 0x72, 0x6d, 0x61, 0x6e, 0x65, 0x6e, 0x74, 0x6c, 0x79],
            Status::MovedTemporarily => vec![0x4du8, 0x6f, 0x76, 0x65, 0x64, 0x20, 0x54, 0x65, 0x6d, 0x70, 0x6f, 0x72, 0x61, 0x72, 0x69, 0x6c, 0x79],
            Status::SeeOther => vec![0x53u8, 0x65, 0x65, 0x20, 0x4f, 0x74, 0x68, 0x65, 0x72],
            Status::NotModified => vec![0x4eu8, 0x6f, 0x74, 0x20, 0x4d, 0x6f, 0x64, 0x69, 0x66, 0x69, 0x65, 0x64],
            Status::UseProxy => vec![0x55u8, 0x73, 0x65, 0x20, 0x50, 0x72, 0x6f, 0x78, 0x79],
            Status::BadRequest => vec![0x42u8, 0x61, 0x64, 0x20, 0x52, 0x65, 0x71, 0x75, 0x65, 0x73, 0x74],
            Status::Unauthorized => vec![0x55u8, 0x6e, 0x61, 0x75, 0x74, 0x68, 0x6f, 0x72, 0x69, 0x7a, 0x65, 0x64],
            Status::PaymentRequired => vec![0x50u8, 0x61, 0x79, 0x6d, 0x65, 0x6e, 0x74, 0x20, 0x52, 0x65, 0x71, 0x75, 0x69, 0x72, 0x65, 0x64],
            Status::Forbidden => vec![0x46u8, 0x6f, 0x72, 0x62, 0x69, 0x64, 0x64, 0x65, 0x6e],
            Status::NotFound => vec![0x53u8, 0x74, 0x72, 0x65, 0x61, 0x6d, 0x20, 0x4e, 0x6f, 0x74, 0x20, 0x46, 0x6f, 0x75, 0x6e, 0x64],
            Status::MethodNotAllowed => vec![0x4du8, 0x65, 0x74, 0x68, 0x6f, 0x64, 0x20, 0x4e, 0x6f, 0x74, 0x20, 0x41, 0x6c, 0x6c, 0x6f, 0x77, 0x65, 0x64],
            Status::NotAcceptable => vec![0x4eu8, 0x6f, 0x74, 0x20, 0x41, 0x63, 0x63, 0x65, 0x70, 0x74, 0x61, 0x62, 0x6c, 0x65],
            Status::ProxyAuthenticationRequired => vec![0x50u8, 0x72, 0x6f, 0x78, 0x79, 0x20, 0x41, 0x75, 0x74, 0x68, 0x65, 0x6e, 0x74, 0x69, 0x63, 0x61, 0x74, 0x69, 0x6f, 0x6e, 0x20, 0x52, 0x65, 0x71, 0x75, 0x69, 0x72, 0x65, 0x64],
            Status::RequestTimeout => vec![0x52u8, 0x65, 0x71, 0x75, 0x65, 0x73, 0x74, 0x20, 0x54, 0x69, 0x6d, 0x65, 0x6f, 0x75, 0x74],
            Status::Gone => vec![0x47u8, 0x6f, 0x6e, 0x65],
            Status::LengthRequired => vec![0x4cu8, 0x65, 0x6e, 0x67, 0x74, 0x68, 0x20, 0x52, 0x65, 0x71, 0x75, 0x69, 0x72, 0x65, 0x64],
            Status::PreconditionFailed => vec![0x50u8, 0x72, 0x65, 0x63, 0x6f, 0x6e, 0x64, 0x69, 0x74, 0x69, 0x6f, 0x6e, 0x20, 0x46, 0x61, 0x69, 0x6c, 0x65, 0x64],
            Status::RequestEntityTooLarge => vec![0x52u8, 0x65, 0x71, 0x75, 0x65, 0x73, 0x74, 0x20, 0x45, 0x6e, 0x74, 0x69, 0x74, 0x79, 0x20, 0x54, 0x6f, 0x6f, 0x20, 0x4c, 0x61, 0x72, 0x67, 0x65],
            Status::RequestURITooLarge => vec![0x52u8, 0x65, 0x71, 0x75, 0x65, 0x73, 0x74, 0x20, 0x55, 0x52, 0x49, 0x20, 0x54, 0x6f, 0x6f, 0x20, 0x4c, 0x61, 0x72, 0x67, 0x65],
            Status::UnsupportedMediaType => vec![0x55u8, 0x6e, 0x73, 0x75, 0x70, 0x70, 0x6f, 0x72, 0x74, 0x65, 0x64, 0x20, 0x4d, 0x65, 0x64, 0x69, 0x61, 0x20, 0x54, 0x79, 0x70, 0x65],
            Status::ParameterNotUnderstood => vec![0x50u8, 0x61, 0x72, 0x61, 0x6d, 0x65, 0x74, 0x65, 0x72, 0x20, 0x4e, 0x6f, 0x74, 0x20, 0x55, 0x6e, 0x64, 0x65, 0x72, 0x73, 0x74, 0x6f, 0x6f, 0x64],
            Status::ConferenceNotFound => vec![0x43u8, 0x6f, 0x6e, 0x66, 0x65, 0x72, 0x65, 0x6e, 0x63, 0x65, 0x20, 0x4e, 0x6f, 0x74, 0x20, 0x46, 0x6f, 0x75, 0x6e, 0x64],
            Status::NotEnoughBandwidth => vec![0x4eu8, 0x6f, 0x74, 0x20, 0x45, 0x6e, 0x6f, 0x75, 0x67, 0x68, 0x20, 0x42, 0x61, 0x6e, 0x64, 0x77, 0x69, 0x64, 0x74, 0x68],
            Status::SessionNotFound => vec![0x53u8, 0x65, 0x73, 0x73, 0x69, 0x6f, 0x6e, 0x20, 0x4e, 0x6f, 0x74, 0x20, 0x46, 0x6f, 0x75, 0x6e, 0x64],
            Status::MethodNotValidInThisState => vec![0x4du8, 0x65, 0x74, 0x68, 0x6f, 0x64, 0x20, 0x4e, 0x6f, 0x74, 0x20, 0x56, 0x61, 0x6c, 0x69, 0x64, 0x20, 0x49, 0x6e, 0x20, 0x54, 0x68, 0x69, 0x73, 0x20, 0x53, 0x74, 0x61, 0x74, 0x65],
            Status::HeaderFieldNotValidForResource => vec![0x48u8, 0x65, 0x61, 0x64, 0x65, 0x72, 0x20, 0x46, 0x69, 0x65, 0x6c, 0x64, 0x20, 0x4e, 0x6f, 0x74, 0x20, 0x56, 0x61, 0x6c, 0x69, 0x64, 0x20, 0x46, 0x6f, 0x72, 0x20, 0x52, 0x65, 0x73, 0x6f, 0x75, 0x72, 0x63, 0x65],
            Status::InvalidRange => vec![0x49u8, 0x6e, 0x76, 0x61, 0x6c, 0x69, 0x64, 0x20, 0x52, 0x61, 0x6e, 0x67, 0x65],
            Status::ParameterIsReadOnly => vec![0x50u8, 0x61, 0x72, 0x61, 0x6d, 0x65, 0x74, 0x65, 0x72, 0x20, 0x49, 0x73, 0x20, 0x52, 0x65, 0x61, 0x64, 0x20, 0x4f, 0x6e, 0x6c, 0x79],
            Status::AggregateOperationNotAllowed => vec![0x41u8, 0x67, 0x67, 0x72, 0x65, 0x67, 0x61, 0x74, 0x65, 0x20, 0x4f, 0x70, 0x65, 0x72, 0x61, 0x74, 0x69, 0x6f, 0x6e, 0x20, 0x4e, 0x6f, 0x74, 0x20, 0x41, 0x6c, 0x6c, 0x6f, 0x77, 0x65, 0x64],
            Status::OnlyAggregateOperationAllowed => vec![0x4fu8, 0x6e, 0x6c, 0x79, 0x20, 0x41, 0x67, 0x67, 0x72, 0x65, 0x67, 0x61, 0x74, 0x65, 0x20, 0x4f, 0x70, 0x65, 0x72, 0x61, 0x74, 0x69, 0x6f, 0x6e, 0x20, 0x41, 0x6c, 0x6c, 0x6f, 0x77, 0x65, 0x64],
            Status::UnsupportedTransport => vec![0x55u8, 0x6e, 0x73, 0x75, 0x70, 0x70, 0x6f, 0x72, 0x74, 0x65, 0x64, 0x20, 0x54, 0x72, 0x61, 0x6e, 0x73, 0x70, 0x6f, 0x72, 0x74],
            Status::DestinationUnreachable => vec![0x44u8, 0x65, 0x73, 0x74, 0x69, 0x6e, 0x61, 0x74, 0x69, 0x6f, 0x6e, 0x20, 0x55, 0x6e, 0x72, 0x65, 0x61, 0x63, 0x68, 0x61, 0x62, 0x6c, 0x65],
            Status::InternalServerError => vec![0x49u8, 0x6e, 0x74, 0x65, 0x72, 0x6e, 0x61, 0x6c, 0x20, 0x53, 0x65, 0x72, 0x76, 0x65, 0x72, 0x20, 0x45, 0x72, 0x72, 0x6f, 0x72],
            Status::NotImplemented => vec![0x4eu8, 0x6f, 0x74, 0x20, 0x49, 0x6d, 0x70, 0x6c, 0x65, 0x6d, 0x65, 0x6e, 0x74, 0x65, 0x64],
            Status::BadGateway => vec![0x42u8, 0x61, 0x64, 0x20, 0x47, 0x61, 0x74, 0x65, 0x77, 0x61, 0x79],
            Status::ServiceUnavailable => vec![0x53u8, 0x65, 0x72, 0x76, 0x69, 0x63, 0x65, 0x20, 0x55, 0x6e, 0x61, 0x76, 0x61, 0x69, 0x6c, 0x61, 0x62, 0x6c, 0x65],
            Status::GatewayTimeout => vec![0x47u8, 0x61, 0x74, 0x65, 0x77, 0x61, 0x79, 0x20, 0x54, 0x69, 0x6d, 0x65, 0x6f, 0x75, 0x74],
            Status::RTSPVersionNotSupported => vec![0x52u8, 0x54, 0x53, 0x50, 0x20, 0x56, 0x65, 0x72, 0x73, 0x69, 0x6f, 0x6e, 0x20, 0x4e, 0x6f, 0x74, 0x20, 0x53, 0x75, 0x70, 0x70, 0x6f, 0x72, 0x74, 0x65, 0x64],
            Status::OptionNotSupported => vec![0x4fu8, 0x70, 0x74, 0x69, 0x6f, 0x6e, 0x20, 0x4e, 0x6f, 0x74, 0x20, 0x53, 0x75, 0x70, 0x70, 0x6f, 0x72, 0x74, 0x65, 0x64],
        };
        proof {
            assert(r@ =~= spec_reason(*self));
        }
        r
    }
}

#[derive(Debug, Clone, Copy, PartialEq, Eq, Structural)]
pub enum ParseStatusError {
    InvalidStatus(InvalidStatusError),
    ParseIntError(ParseIntError),
}

/// What parsing a status token yields: a decimal `u32` that names a status
/// of the closed set.
pub open spec fn spec_parse_status(s: Seq<u8>) -> Result<Status, ParseStatusError> {
    match parse_u32_spec(s) {
        Result::Err(e) => Err(ParseStatusError::ParseIntError(e)),
        Result::Ok(c) => match spec_from_code(c) {
            Option::None => Err(ParseStatusError::InvalidStatus(InvalidStatusError { status: c })),
            Option::Some(st) => Ok(st),
        },
    }
}

impl Status {
    /// Reads a status token.
    pub fn parse(s: &[u8]) -> (r: Result<Status, ParseStatusError>)
        ensures
            r == spec_parse_status(s@),
    {
        match parse_u32(s) {
            Result::Err(e) => Err(ParseStatusError::ParseIntError(e)),
            Result::Ok(c) => match Status::from_code(c) {
                Result::Err(e) => Err(ParseStatusError::InvalidStatus(e)),
                Result::Ok(st) => Ok(st),
            },
        }
    }
}

} // verus!
