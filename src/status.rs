//! Statuses carried in response headers.
use vstd::prelude::*;

verus! {

/// Outcome of handling a request, passed in response headers as `status`.
#[derive(PartialEq, Eq, Structural, Clone, Copy, Debug, Hash)]
pub enum ResponseStatus {
    Success,
    WrongProviderID,
    ContentTypeNotSupported,
    AcceptTypeNotSupported,
    VersionTooBig,
    ProviderNotRegistered,
    ProviderDoesNotExist,
    DeserializingBodyFailed,
    SerializingBodyFailed,
    OpcodeDoesNotExist,
    ResponseTooLarge,
    AuthenticationError,
    AuthenticatorDoesNotExist,
    AuthenticatorNotRegistered,
    KeyDoesNotExist,
    KeyAlreadyExists,
    KeyInfoManagerError,
    ConnectionError,
    InvalidEncoding,
    InvalidHeader,
    BodyLenTooLarge,
    NotAuthenticated,
    PsaErrorGenericError,
    PsaErrorNotPermitted,
    PsaErrorNotSupported,
    PsaErrorInvalidArgument,
    PsaErrorInvalidHandle,
    PsaErrorBadState,
    PsaErrorBufferTooSmall,
    PsaErrorAlreadyExists,
    PsaErrorDoesNotExist,
    PsaErrorInsufficientMemory,
    PsaErrorInsufficientStorage,
    PsaErrorInsufficientData,
    PsaErrorCommunicationFailure,
    PsaErrorStorageFailure,
    PsaErrorHardwareFailure,
    PsaErrorInsufficientEntropy,
    PsaErrorInvalidSignature,
    PsaErrorInvalidPadding,
    PsaErrorCorruptionDetected,
    PsaErrorDataCorrupt,
}

/// The code of a status.
pub open spec fn status_code(s: ResponseStatus) -> u16 {
    match s {
        ResponseStatus::Success => 0,
        ResponseStatus::WrongProviderID => 1,
        ResponseStatus::ContentTypeNotSupported => 2,
        ResponseStatus::AcceptTypeNotSupported => 3,
        ResponseStatus::VersionTooBig => 4,
        ResponseStatus::ProviderNotRegistered => 5,
        ResponseStatus::ProviderDoesNotExist => 6,
        ResponseStatus::DeserializingBodyFailed => 7,
        ResponseStatus::SerializingBodyFailed => 8,
        ResponseStatus::OpcodeDoesNotExist => 9,
        ResponseStatus::ResponseTooLarge => 10,
        ResponseStatus::AuthenticationError => 11,
        ResponseStatus::AuthenticatorDoesNotExist => 12,
        ResponseStatus::AuthenticatorNotRegistered => 13,
        ResponseStatus::KeyDoesNotExist => 14,
        ResponseStatus::KeyAlreadyExists => 15,
        ResponseStatus::KeyInfoManagerError => 16,
        ResponseStatus::ConnectionError => 17,
        ResponseStatus::InvalidEncoding => 18,
        ResponseStatus::InvalidHeader => 19,
        ResponseStatus::BodyLenTooLarge => 20,
        ResponseStatus::NotAuthenticated => 21,
        ResponseStatus::PsaErrorGenericError => 1132,
        ResponseStatus::PsaErrorNotPermitted => 1133,
        ResponseStatus::PsaErrorNotSupported => 1134,
        ResponseStatus::PsaErrorInvalidArgument => 1135,
        ResponseStatus::PsaErrorInvalidHandle => 1136,
        ResponseStatus::PsaErrorBadState => 1137,
        ResponseStatus::PsaErrorBufferTooSmall => 1138,
        ResponseStatus::PsaErrorAlreadyExists => 1139,
        ResponseStatus::PsaErrorDoesNotExist => 1140,
        ResponseStatus::PsaErrorInsufficientMemory => 1141,
        ResponseStatus::PsaErrorInsufficientStorage => 1142,
        ResponseStatus::PsaErrorInsufficientData => 1143,
        ResponseStatus::PsaErrorCommunicationFailure => 1145,
        ResponseStatus::PsaErrorStorageFailure => 1146,
        ResponseStatus::PsaErrorHardwareFailure => 1147,
        ResponseStatus::PsaErrorInsufficientEntropy => 1148,
        ResponseStatus::PsaErrorInvalidSignature => 1149,
        ResponseStatus::PsaErrorInvalidPadding => 1150,
        ResponseStatus::PsaErrorCorruptionDetected => 1151,
        ResponseStatus::PsaErrorDataCorrupt => 1152,
    }
}

/// Whether a number is the code of some status.
pub open spec fn is_status_code(v: u16) -> bool {
    v <= 21 || (1132 <= v <= 1152 && v != 1144)
}

impl ResponseStatus {
    /// The status with the given code, if there is one.
    pub fn from_u16(v: u16) -> (r: Option<ResponseStatus>)
        ensures
            r is Some <==> is_status_code(v),
            r matches Some(s) ==> status_code(s) == v,
    {
        match v {
            0 => Some(ResponseStatus::Success),
            1 => Some(ResponseStatus::WrongProviderID),
            2 => Some(ResponseStatus::ContentTypeNotSupported),
            3 => Some(ResponseStatus::AcceptTypeNotSupported),
            4 => Some(ResponseStatus::VersionTooBig),
            5 => Some(ResponseStatus::ProviderNotRegistered),
            6 => Some(ResponseStatus::ProviderDoesNotExist),
            7 => Some(ResponseStatus::DeserializingBodyFailed),
            8 => Some(ResponseStatus::SerializingBodyFailed),
            9 => Some(ResponseStatus::OpcodeDoesNotExist),
            10 => Some(ResponseStatus::ResponseTooLarge),
            11 => Some(ResponseStatus::AuthenticationError),
            12 => Some(ResponseStatus::AuthenticatorDoesNotExist),
            13 => Some(ResponseStatus::AuthenticatorNotRegistered),
            14 => Some(ResponseStatus::KeyDoesNotExist),
            15 => Some(ResponseStatus::KeyAlreadyExists),
            16 => Some(ResponseStatus::KeyInfoManagerError),
            17 => Some(ResponseStatus::ConnectionError),
            18 => Some(ResponseStatus::InvalidEncoding),
            19 => Some(ResponseStatus::InvalidHeader),
            20 => Some(ResponseStatus::BodyLenTooLarge),
            21 => Some(ResponseStatus::NotAuthenticated),
            1132 => Some(ResponseStatus::PsaErrorGenericError),
            1133 => Some(ResponseStatus::PsaErrorNotPermitted),
            1134 => Some(ResponseStatus::PsaErrorNotSupported),
            1135 => Some(ResponseStatus::PsaErrorInvalidArgument),
            1136 => Some(ResponseStatus::PsaErrorInvalidHandle),
            1137 => Some(ResponseStatus::PsaErrorBadState),
            1138 => Some(ResponseStatus::PsaErrorBufferTooSmall),
            1139 => Some(ResponseStatus::PsaErrorAlreadyExists),
            1140 => Some(ResponseStatus::PsaErrorDoesNotExist),
            1141 => Some(ResponseStatus::PsaErrorInsufficientMemory),
            1142 => Some(ResponseStatus::PsaErrorInsufficientStorage),
            1143 => Some(ResponseStatus::PsaErrorInsufficientData),
            1145 => Some(ResponseStatus::PsaErrorCommunicationFailure),
            1146 => Some(ResponseStatus::PsaErrorStorageFailure),
            1147 => Some(ResponseStatus::PsaErrorHardwareFailure),
            1148 => Some(ResponseStatus::PsaErrorInsufficientEntropy),
            1149 => Some(ResponseStatus::PsaErrorInvalidSignature),
            1150 => Some(ResponseStatus::PsaErrorInvalidPadding),
            1151 => Some(ResponseStatus::PsaErrorCorruptionDetected),
            1152 => Some(ResponseStatus::PsaErrorDataCorrupt),
            _ => None,
        }
    }

    /// The code of this status.
    pub fn to_u16(&self) -> (r: u16)
        ensures
            r == status_code(*self),
            is_status_code(r),
    {
        match self {
            ResponseStatus::Success => 0,
            ResponseStatus::WrongProviderID => 1,
            ResponseStatus::ContentTypeNotSupported => 2,
            ResponseStatus::AcceptTypeNotSupported => 3,
            ResponseStatus::VersionTooBig => 4,
            ResponseStatus::ProviderNotRegistered => 5,
            ResponseStatus::ProviderDoesNotExist => 6,
            ResponseStatus::DeserializingBodyFailed => 7,
            ResponseStatus::SerializingBodyFailed => 8,
            ResponseStatus::OpcodeDoesNotExist => 9,
            ResponseStatus::ResponseTooLarge => 10,
            ResponseStatus::AuthenticationError => 11,
            ResponseStatus::AuthenticatorDoesNotExist => 12,
            ResponseStatus::AuthenticatorNotRegistered => 13,
            ResponseStatus::KeyDoesNotExist => 14,
            ResponseStatus::KeyAlreadyExists => 15,
            ResponseStatus::KeyInfoManagerError => 16,
            ResponseStatus::ConnectionError => 17,
            ResponseStatus::InvalidEncoding => 18,
            ResponseStatus::InvalidHeader => 19,
            ResponseStatus::BodyLenTooLarge => 20,
            ResponseStatus::NotAuthenticated => 21,
            ResponseStatus::PsaErrorGenericError => 1132,
            ResponseStatus::PsaErrorNotPermitted => 1133,
            ResponseStatus::PsaErrorNotSupported => 1134,
            ResponseStatus::PsaErrorInvalidArgument => 1135,
            ResponseStatus::PsaErrorInvalidHandle => 1136,
            ResponseStatus::PsaErrorBadState => 1137,
            ResponseStatus::PsaErrorBufferTooSmall => 1138,
            ResponseStatus::PsaErrorAlreadyExists => 1139,
            ResponseStatus::PsaErrorDoesNotExist => 1140,
            ResponseStatus::PsaErrorInsufficientMemory => 1141,
            ResponseStatus::PsaErrorInsufficientStorage => 1142,
            ResponseStatus::PsaErrorInsufficientData => 1143,
            ResponseStatus::PsaErrorCommunicationFailure => 1145,
            ResponseStatus::PsaErrorStorageFailure => 1146,
            ResponseStatus::PsaErrorHardwareFailure => 1147,
            ResponseStatus::PsaErrorInsufficientEntropy => 1148,
            ResponseStatus::PsaErrorInvalidSignature => 1149,
            ResponseStatus::PsaErrorInvalidPadding => 1150,
            ResponseStatus::PsaErrorCorruptionDetected => 1151,
            ResponseStatus::PsaErrorDataCorrupt => 1152,
        }
    }
}

} // verus!
