//! The requests a client may send and the statuses the service answers with.

use crate::buffer::buffer_bytes;
use bytes::BytesMut;
use std::io::ErrorKind;
use vstd::prelude::*;

verus! {

/// `std::io::ErrorKind`, carried through without a look inside.
#[verifier::external_type_specification]
#[verifier::external_body]
pub struct ExErrorKind(std::io::ErrorKind);

/// `std::io::Error`, carried through without a look inside.
#[verifier::external_type_specification]
#[verifier::external_body]
pub struct ExIoError(std::io::Error);

/// The kind of a transport error, as `std::io::Error::kind` reports it.
pub uninterp spec fn error_kind(error: std::io::Error) -> ErrorKind;

/// `std::io::Error::kind` returns the kind of the error. Nothing is proved of
/// it; the kind is only given a name.
pub assume_specification[ std::io::Error::kind ](error: &std::io::Error) -> (kind: ErrorKind)
    ensures
        kind == error_kind(*error),
;

/// A request as it arrives from the framing layer.
#[derive(Debug, PartialEq)]
pub enum RequestCode {
    Ping,
    GetStats,
    ResetStats,
    Compress(BytesMut),
}

/// The outcome of a request, also used for protocol errors.
#[derive(Debug, PartialEq)]
pub enum StatusCode {
    Success(BytesMut),
    UnknownError,
    MessageTooLarge,
    UnsupportedRequestType,
    EmptyBuffer,
    NonEmptyBuffer,
    NonAscii,
    NonAlphabetic,
    NonLowerCase,
    IoError(ErrorKind),
}

/// What a [`RequestCode`] means: the same alternatives, the payload as a
/// sequence of bytes.
pub enum Request {
    Ping,
    GetStats,
    ResetStats,
    Compress(Seq<u8>),
}

/// What a [`StatusCode`] means: the same alternatives, the payload as a
/// sequence of bytes.
pub enum Status {
    Success(Seq<u8>),
    UnknownError,
    MessageTooLarge,
    UnsupportedRequestType,
    EmptyBuffer,
    NonEmptyBuffer,
    NonAscii,
    NonAlphabetic,
    NonLowerCase,
    IoError(ErrorKind),
}

impl View for RequestCode {
    type V = Request;

    open spec fn view(&self) -> Request {
        match *self {
            RequestCode::Ping => Request::Ping,
            RequestCode::GetStats => Request::GetStats,
            RequestCode::ResetStats => Request::ResetStats,
            RequestCode::Compress(payload) => Request::Compress(buffer_bytes(payload)),
        }
    }
}

impl View for StatusCode {
    type V = Status;

    open spec fn view(&self) -> Status {
        match *self {
            StatusCode::Success(payload) => Status::Success(buffer_bytes(payload)),
            StatusCode::UnknownError => Status::UnknownError,
            StatusCode::MessageTooLarge => Status::MessageTooLarge,
            StatusCode::UnsupportedRequestType => Status::UnsupportedRequestType,
            StatusCode::EmptyBuffer => Status::EmptyBuffer,
            StatusCode::NonEmptyBuffer => Status::NonEmptyBuffer,
            StatusCode::NonAscii => Status::NonAscii,
            StatusCode::NonAlphabetic => Status::NonAlphabetic,
            StatusCode::NonLowerCase => Status::NonLowerCase,
            StatusCode::IoError(kind) => Status::IoError(kind),
        }
    }
}

impl From<std::io::Error> for StatusCode {
    /// A transport error becomes the status that carries its kind.
    fn from(error: std::io::Error) -> (status: StatusCode)
        ensures
            status@ == Status::IoError(error_kind(error)),
    {
        StatusCode::IoError(error.kind())
    }
}

impl vstd::std_specs::convert::FromSpecImpl<std::io::Error> for StatusCode {
    open spec fn obeys_from_spec() -> bool {
        true
    }

    open spec fn from_spec(error: std::io::Error) -> StatusCode {
        StatusCode::IoError(error_kind(error))
    }
}

impl Request {
    /// The code that announces this request on the wire.
    pub open spec fn code(self) -> u16 {
        match self {
            Request::Ping => 1,
            Request::GetStats => 2,
            Request::ResetStats => 3,
            Request::Compress(_) => 4,
        }
    }

    /// The bytes that follow the header of this request.
    pub open spec fn payload(self) -> Seq<u8> {
        match self {
            Request::Compress(payload) => payload,
            _ => Seq::empty(),
        }
    }
}

impl Status {
    /// The code that announces this status on the wire. A transport failure
    /// is reported as an unknown error.
    pub open spec fn code(self) -> u16 {
        match self {
            Status::Success(_) => 0,
            Status::UnknownError => 1,
            Status::MessageTooLarge => 2,
            Status::UnsupportedRequestType => 3,
            Status::EmptyBuffer => 33,
            Status::NonEmptyBuffer => 34,
            Status::NonAscii => 35,
            Status::NonAlphabetic => 36,
            Status::NonLowerCase => 37,
            Status::IoError(_) => 1,
        }
    }

    /// The bytes that follow the header of this status: the carried payload
    /// for `Success`, nothing otherwise.
    pub open spec fn payload(self) -> Seq<u8> {
        match self {
            Status::Success(payload) => payload,
            _ => Seq::empty(),
        }
    }
}

/// No status is announced by a reserved code: the codes on the wire are 0
/// to 3 and 33 to 37.
pub proof fn lemma_status_code_is_assigned(status: Status)
    ensures
        status.code() <= 3 || 33 <= status.code() <= 37,
        status.code() == 0 <==> status is Success,
{
}

} // verus!
