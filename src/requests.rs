//! Numeric tags carried in request and response headers.
use vstd::prelude::*;

verus! {

/// Magic number that opens every request and response header.
pub const MAGIC_NUMBER: u32 = 0x5EC0_A710;

/// Value of `hdr_size` in a request header: the header bytes after `magic` and `hdr_size`.
pub const REQUEST_HDR_SIZE: u16 = 22;

/// Value of `hdr_size` in a response header: the header bytes after `magic` and `hdr_size`.
pub const RESPONSE_HDR_SIZE: u16 = 20;

/// Providers and their tags, passed in headers as `provider`.
#[derive(PartialEq, Eq, Structural, Clone, Copy, Debug, Hash)]
pub enum ProviderID {
    Core,
    MbedCrypto,
    Pkcs11,
    Tpm,
    TrustedService,
}

/// The tag of a provider.
pub open spec fn provider_tag(p: ProviderID) -> u8 {
    match p {
        ProviderID::Core => 0,
        ProviderID::MbedCrypto => 1,
        ProviderID::Pkcs11 => 2,
        ProviderID::Tpm => 3,
        ProviderID::TrustedService => 4,
    }
}

/// The provider with a tag below 5.
pub open spec fn provider_from_tag(v: u8) -> ProviderID {
    if v == 0 {
        ProviderID::Core
    } else if v == 1 {
        ProviderID::MbedCrypto
    } else if v == 2 {
        ProviderID::Pkcs11
    } else if v == 3 {
        ProviderID::Tpm
    } else {
        ProviderID::TrustedService
    }
}

impl ProviderID {
    /// The provider with the given tag, if there is one.
    pub fn from_u8(v: u8) -> (r: Option<ProviderID>)
        ensures
            r is Some <==> v < 5,
            r matches Some(p) ==> provider_tag(p) == v && p == provider_from_tag(v),
    {
        match v {
            0 => Some(ProviderID::Core),
            1 => Some(ProviderID::MbedCrypto),
            2 => Some(ProviderID::Pkcs11),
            3 => Some(ProviderID::Tpm),
            4 => Some(ProviderID::TrustedService),
            _ => None,
        }
    }

    /// The tag of this provider.
    pub fn to_u8(&self) -> (r: u8)
        ensures
            r == provider_tag(*self),
    {
        match self {
            ProviderID::Core => 0,
            ProviderID::MbedCrypto => 1,
            ProviderID::Pkcs11 => 2,
            ProviderID::Tpm => 3,
            ProviderID::TrustedService => 4,
        }
    }
}

/// Body encodings, passed in headers as `content_type` and `accept_type`.
#[derive(PartialEq, Eq, Structural, Clone, Copy, Debug, Hash)]
pub enum BodyType {
    Protobuf,
}

/// The tag of a body encoding.
pub open spec fn body_type_tag(b: BodyType) -> u8 {
    match b {
        BodyType::Protobuf => 0,
    }
}

impl BodyType {
    /// The body encoding with the given tag, if there is one.
    pub fn from_u8(v: u8) -> (r: Option<BodyType>)
        ensures
            r is Some <==> v == 0,
            r matches Some(b) ==> body_type_tag(b) == v,
    {
        if v == 0 {
            Some(BodyType::Protobuf)
        } else {
            None
        }
    }

    /// The tag of this body encoding.
    pub fn to_u8(&self) -> (r: u8)
        ensures
            r == body_type_tag(*self),
    {
        match self {
            BodyType::Protobuf => 0,
        }
    }
}

/// Operations and their opcodes, passed in headers as `opcode`.
#[derive(PartialEq, Eq, Structural, Clone, Copy, Debug, Hash)]
pub enum Opcode {
    Ping,
    PsaGenerateKey,
    PsaDestroyKey,
    PsaSignHash,
    PsaVerifyHash,
    PsaImportKey,
    PsaExportPublicKey,
    ListProviders,
    ListOpcodes,
    PsaAsymmetricEncrypt,
    PsaAsymmetricDecrypt,
    ListAuthenticators,
    ListKeys,
    ListClients,
}

/// The opcode of an operation.
pub open spec fn opcode_value(o: Opcode) -> u16 {
    match o {
        Opcode::Ping => 1,
        Opcode::PsaGenerateKey => 2,
        Opcode::PsaDestroyKey => 3,
        Opcode::PsaSignHash => 4,
        Opcode::PsaVerifyHash => 5,
        Opcode::PsaImportKey => 6,
        Opcode::PsaExportPublicKey => 7,
        Opcode::ListProviders => 8,
        Opcode::ListOpcodes => 9,
        Opcode::PsaAsymmetricEncrypt => 10,
        Opcode::PsaAsymmetricDecrypt => 11,
        Opcode::ListAuthenticators => 14,
        Opcode::ListKeys => 26,
        Opcode::ListClients => 27,
    }
}

/// Whether a number is the opcode of some operation.
pub open spec fn is_opcode_value(v: u16) -> bool {
    (1 <= v <= 11) || v == 14 || v == 26 || v == 27
}

/// The operation with the given opcode, where there is one.
pub open spec fn opcode_from_value(v: u16) -> Opcode {
    if v == 1 {
        Opcode::Ping
    } else if v == 2 {
        Opcode::PsaGenerateKey
    } else if v == 3 {
        Opcode::PsaDestroyKey
    } else if v == 4 {
        Opcode::PsaSignHash
    } else if v == 5 {
        Opcode::PsaVerifyHash
    } else if v == 6 {
        Opcode::PsaImportKey
    } else if v == 7 {
        Opcode::PsaExportPublicKey
    } else if v == 8 {
        Opcode::ListProviders
    } else if v == 9 {
        Opcode::ListOpcodes
    } else if v == 10 {
        Opcode::PsaAsymmetricEncrypt
    } else if v == 11 {
        Opcode::PsaAsymmetricDecrypt
    } else if v == 14 {
        Opcode::ListAuthenticators
    } else if v == 26 {
        Opcode::ListKeys
    } else {
        Opcode::ListClients
    }
}

/// Each operation is the one named by its opcode.
pub proof fn lemma_opcode_from_value(o: Opcode)
    ensures
        opcode_from_value(opcode_value(o)) == o,
        is_opcode_value(opcode_value(o)),
{
}

/// Each provider is the one named by its tag.
pub proof fn lemma_provider_from_tag(p: ProviderID)
    ensures
        provider_from_tag(provider_tag(p)) == p,
        provider_tag(p) < 5,
{
}

impl Opcode {
    /// The operation with the given opcode, if there is one.
    pub fn from_u16(v: u16) -> (r: Option<Opcode>)
        ensures
            r is Some <==> is_opcode_value(v),
            r matches Some(o) ==> opcode_value(o) == v && o == opcode_from_value(v),
    {
        match v {
            1 => Some(Opcode::Ping),
            2 => Some(Opcode::PsaGenerateKey),
            3 => Some(Opcode::PsaDestroyKey),
            4 => Some(Opcode::PsaSignHash),
            5 => Some(Opcode::PsaVerifyHash),
            6 => Some(Opcode::PsaImportKey),
            7 => Some(Opcode::PsaExportPublicKey),
            8 => Some(Opcode::ListProviders),
            9 => Some(Opcode::ListOpcodes),
            10 => Some(Opcode::PsaAsymmetricEncrypt),
            11 => Some(Opcode::PsaAsymmetricDecrypt),
            14 => Some(Opcode::ListAuthenticators),
            26 => Some(Opcode::ListKeys),
            27 => Some(Opcode::ListClients),
            _ => None,
        }
    }

    /// The opcode of this operation.
    pub fn to_u16(&self) -> (r: u16)
        ensures
            r == opcode_value(*self),
            is_opcode_value(r),
    {
        match self {
            Opcode::Ping => 1,
            Opcode::PsaGenerateKey => 2,
            Opcode::PsaDestroyKey => 3,
            Opcode::PsaSignHash => 4,
            Opcode::PsaVerifyHash => 5,
            Opcode::PsaImportKey => 6,
            Opcode::PsaExportPublicKey => 7,
            Opcode::ListProviders => 8,
            Opcode::ListOpcodes => 9,
            Opcode::PsaAsymmetricEncrypt => 10,
            Opcode::PsaAsymmetricDecrypt => 11,
            Opcode::ListAuthenticators => 14,
            Opcode::ListKeys => 26,
            Opcode::ListClients => 27,
        }
    }

    /// Whether the operation acts on keys of an application, and so needs its identity.
    pub fn needs_identity(&self) -> (r: bool)
        ensures
            r == opcode_needs_identity(*self),
    {
        match self {
            Opcode::Ping | Opcode::ListProviders | Opcode::ListOpcodes
            | Opcode::ListAuthenticators => false,
            _ => true,
        }
    }
}

/// Operations that act on the keys of an application.
pub open spec fn opcode_needs_identity(o: Opcode) -> bool {
    !(o == Opcode::Ping || o == Opcode::ListProviders || o == Opcode::ListOpcodes
        || o == Opcode::ListAuthenticators)
}

/// Authentication methods, passed in request headers as `auth_type`.
#[derive(PartialEq, Eq, Structural, Clone, Copy, Debug, Hash)]
pub enum AuthType {
    NoAuth,
    Direct,
    UnixPeerCredentials,
}

/// The tag of an authentication method.
pub open spec fn auth_type_tag(a: AuthType) -> u8 {
    match a {
        AuthType::NoAuth => 0,
        AuthType::Direct => 1,
        AuthType::UnixPeerCredentials => 2,
    }
}

impl AuthType {
    /// The authentication method with the given tag, if there is one.
    pub fn from_u8(v: u8) -> (r: Option<AuthType>)
        ensures
            r is Some <==> v < 3,
            r matches Some(a) ==> auth_type_tag(a) == v,
    {
        match v {
            0 => Some(AuthType::NoAuth),
            1 => Some(AuthType::Direct),
            2 => Some(AuthType::UnixPeerCredentials),
            _ => None,
        }
    }

    /// The tag of this authentication method.
    pub fn to_u8(&self) -> (r: u8)
        ensures
            r == auth_type_tag(*self),
    {
        match self {
            AuthType::NoAuth => 0,
            AuthType::Direct => 1,
            AuthType::UnixPeerCredentials => 2,
        }
    }
}

} // verus!
