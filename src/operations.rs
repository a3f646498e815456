//! Typed operations and results, and the converter between them and
//! protobuf-encoded bodies.
use vstd::prelude::*;
use crate::protobuf::{
    WireField, Field, varint, fields_bytes, parse_fields, fields_view, encode_fields, decode_fields,
    lemma_fields_round_trip, fields_encodable, varints_bytes, encode_varints, scalar_field,
    repeated_field, get_scalar_field, get_repeated_field, lemma_varints_round_trip, bytes_field,
    repeated_bytes_field, get_bytes_field, get_repeated_bytes_field, bytes_views,
    field_tag, tags_within, concat_pieces, numbered_pieces,
    lemma_repeated_bytes,
};
use vstd::utf8::{valid_utf8, decode_utf8, encode_utf8, encode_utf8_decode_utf8, encode_utf8_valid_utf8};
use crate::mapping::string_from_utf8;
use crate::requests::{
    AuthType, auth_type_tag, Opcode, ProviderID, provider_tag, provider_from_tag, opcode_value, opcode_from_value,
    is_opcode_value, lemma_opcode_from_value, lemma_provider_from_tag,
};
use crate::status::ResponseStatus;

verus! {

/// The `Ping` operation: it carries nothing.
#[derive(PartialEq, Eq, Structural, Clone, Copy, Debug)]
pub struct OpPing {}

/// The result of `Ping`: the wire protocol version of the service.
#[derive(PartialEq, Eq, Structural, Clone, Copy, Debug)]
pub struct ResultPing {
    pub wire_protocol_version_maj: u8,
    pub wire_protocol_version_min: u8,
}

/// The `ListOpcodes` operation: which provider to ask about.
#[derive(PartialEq, Eq, Structural, Clone, Copy, Debug)]
pub struct OpListOpcodes {
    pub provider_id: ProviderID,
}

/// The result of `ListOpcodes`: the operations that the provider serves.
#[derive(PartialEq, Eq, Clone, Debug)]
pub struct ResultListOpcodes {
    pub opcodes: Vec<Opcode>,
}

/// The `ListProviders` operation: it carries nothing.
#[derive(PartialEq, Eq, Structural, Clone, Copy, Debug)]
pub struct OpListProviders {}

/// The `ListAuthenticators` operation: it carries nothing.
#[derive(PartialEq, Eq, Structural, Clone, Copy, Debug)]
pub struct OpListAuthenticators {}

/// What the service tells of a provider.
#[derive(PartialEq, Eq, Clone, Debug)]
pub struct ProviderInfo {
    pub uuid: String,
    pub description: String,
    pub vendor: String,
    pub version_maj: u32,
    pub version_min: u32,
    pub version_rev: u32,
    pub id: ProviderID,
}

/// What a provider description holds.
pub struct ProviderInfoView {
    pub uuid: Seq<char>,
    pub description: Seq<char>,
    pub vendor: Seq<char>,
    pub version_maj: u32,
    pub version_min: u32,
    pub version_rev: u32,
    pub id: ProviderID,
}

impl View for ProviderInfo {
    type V = ProviderInfoView;

    open spec fn view(&self) -> ProviderInfoView {
        ProviderInfoView {
            uuid: self.uuid@,
            description: self.description@,
            vendor: self.vendor@,
            version_maj: self.version_maj,
            version_min: self.version_min,
            version_rev: self.version_rev,
            id: self.id,
        }
    }
}

/// What the service tells of an authenticator.
#[derive(PartialEq, Eq, Clone, Debug)]
pub struct AuthenticatorInfo {
    pub description: String,
    pub version_maj: u32,
    pub version_min: u32,
    pub version_rev: u32,
    pub id: AuthType,
}

/// What an authenticator description holds.
pub struct AuthenticatorInfoView {
    pub description: Seq<char>,
    pub version_maj: u32,
    pub version_min: u32,
    pub version_rev: u32,
    pub id: AuthType,
}

impl View for AuthenticatorInfo {
    type V = AuthenticatorInfoView;

    open spec fn view(&self) -> AuthenticatorInfoView {
        AuthenticatorInfoView {
            description: self.description@,
            version_maj: self.version_maj,
            version_min: self.version_min,
            version_rev: self.version_rev,
            id: self.id,
        }
    }
}

/// The result of `ListProviders`: every registered provider, Core first.
#[derive(PartialEq, Eq, Clone, Debug)]
pub struct ResultListProviders {
    pub providers: Vec<ProviderInfo>,
}

/// The result of `ListAuthenticators`: every registered authenticator.
#[derive(PartialEq, Eq, Clone, Debug)]
pub struct ResultListAuthenticators {
    pub authenticators: Vec<AuthenticatorInfo>,
}

/// The views of a list of provider descriptions.
pub open spec fn provider_views(v: Seq<ProviderInfo>) -> Seq<ProviderInfoView> {
    v.map_values(|p: ProviderInfo| p@)
}

/// The views of a list of authenticator descriptions.
pub open spec fn authenticator_views(v: Seq<AuthenticatorInfo>) -> Seq<AuthenticatorInfoView> {
    v.map_values(|a: AuthenticatorInfo| a@)
}

/// The result of an operation on a key: its single bytes field (the exported
/// key data, the signature, the ciphertext or the plaintext), empty for the
/// operations that return nothing.
#[derive(PartialEq, Eq, Clone, Debug)]
pub struct ResultKey {
    pub opcode: Opcode,
    pub output: Vec<u8>,
}

/// What the service tells of a key of the calling application.
#[derive(PartialEq, Eq, Clone, Debug)]
pub struct KeyInfo {
    pub provider_id: ProviderID,
    pub name: String,
    pub attributes: Vec<u8>,
}

/// What a key description holds.
pub struct KeyInfoView {
    pub provider_id: ProviderID,
    pub name: Seq<char>,
    pub attributes: Seq<u8>,
}

impl View for KeyInfo {
    type V = KeyInfoView;

    open spec fn view(&self) -> KeyInfoView {
        KeyInfoView { provider_id: self.provider_id, name: self.name@, attributes: self.attributes@ }
    }
}

/// The views of a list of key descriptions.
pub open spec fn key_info_views(v: Seq<KeyInfo>) -> Seq<KeyInfoView> {
    v.map_values(|k: KeyInfo| k@)
}

/// The views of a list of strings.
pub open spec fn string_views(v: Seq<String>) -> Seq<Seq<char>> {
    v.map_values(|c: String| c@)
}

/// The result of `ListKeys`: the keys of the calling application.
#[derive(PartialEq, Eq, Clone, Debug)]
pub struct ResultListKeys {
    pub keys: Vec<KeyInfo>,
}

/// The result of `ListClients`: the applications that hold keys.
#[derive(PartialEq, Eq, Clone, Debug)]
pub struct ResultListClients {
    pub clients: Vec<String>,
}

/// The `ListKeys` operation: it carries nothing.
#[derive(PartialEq, Eq, Structural, Clone, Copy, Debug)]
pub struct OpListKeys {}

/// The `ListClients` operation: it carries nothing.
#[derive(PartialEq, Eq, Structural, Clone, Copy, Debug)]
pub struct OpListClients {}

/// An operation on a named key of the calling application.
///
/// `args` are the other length-delimited fields of its message, numbered from
/// 2, as `key_arity` counts them: the encoded key attributes (`PsaGenerateKey`);
/// the attributes and the key data (`PsaImportKey`); nothing
/// (`PsaExportPublicKey`, `PsaDestroyKey`); the encoded algorithm and the hash
/// (`PsaSignHash`); the algorithm, the hash and the signature
/// (`PsaVerifyHash`); the algorithm, the input and the salt
/// (`PsaAsymmetricEncrypt`, `PsaAsymmetricDecrypt`). Attributes and algorithms
/// are passed through to the provider as their encoded messages.
#[derive(PartialEq, Eq, Clone, Debug)]
pub struct OpKey {
    pub opcode: Opcode,
    pub key_name: String,
    pub args: Vec<Vec<u8>>,
}

/// An operation, decoded from a request body.
#[derive(PartialEq, Eq, Clone, Debug)]
pub enum ConvertOperation {
    Ping(OpPing),
    ListProviders(OpListProviders),
    ListOpcodes(OpListOpcodes),
    ListAuthenticators(OpListAuthenticators),
    ListKeys(OpListKeys),
    ListClients(OpListClients),
    Key(OpKey),
}

/// What an operation holds.
pub enum OperationView {
    Ping,
    ListProviders,
    ListOpcodes(ProviderID),
    ListAuthenticators,
    ListKeys,
    ListClients,
    Key(Opcode, Seq<char>, Seq<Seq<u8>>),
}

impl View for ConvertOperation {
    type V = OperationView;

    open spec fn view(&self) -> OperationView {
        match self {
            ConvertOperation::Ping(_) => OperationView::Ping,
            ConvertOperation::ListProviders(_) => OperationView::ListProviders,
            ConvertOperation::ListOpcodes(o) => OperationView::ListOpcodes(o.provider_id),
            ConvertOperation::ListAuthenticators(_) => OperationView::ListAuthenticators,
            ConvertOperation::ListKeys(_) => OperationView::ListKeys,
            ConvertOperation::ListClients(_) => OperationView::ListClients,
            ConvertOperation::Key(k) => OperationView::Key(k.opcode, k.key_name@, bytes_views(k.args@)),
        }
    }
}

/// The number of fields after the key name in the message of an operation on
/// a key, or `None` for an opcode that names no such operation.
pub open spec fn key_arity(o: Opcode) -> Option<nat> {
    match o {
        Opcode::PsaGenerateKey => Some(1),
        Opcode::PsaImportKey => Some(2),
        Opcode::PsaExportPublicKey => Some(0),
        Opcode::PsaDestroyKey => Some(0),
        Opcode::PsaSignHash => Some(2),
        Opcode::PsaVerifyHash => Some(3),
        Opcode::PsaAsymmetricEncrypt => Some(3),
        Opcode::PsaAsymmetricDecrypt => Some(3),
        _ => None,
    }
}

/// The number of fields after the key name, for an operation on a key.
pub fn key_op_arity(o: Opcode) -> (r: Option<usize>)
    ensures
        match r {
            Some(n) => key_arity(o) == Some(n as nat),
            None => key_arity(o) is None,
        },
{
    match o {
        Opcode::PsaGenerateKey => Some(1),
        Opcode::PsaImportKey => Some(2),
        Opcode::PsaExportPublicKey => Some(0),
        Opcode::PsaDestroyKey => Some(0),
        Opcode::PsaSignHash => Some(2),
        Opcode::PsaVerifyHash => Some(3),
        Opcode::PsaAsymmetricEncrypt => Some(3),
        Opcode::PsaAsymmetricDecrypt => Some(3),
        _ => None,
    }
}

/// An operation matches the schema of its opcode: an operation on a key has
/// a key opcode and as many fields as that opcode's message.
pub open spec fn operation_well_typed(op: OperationView) -> bool {
    match op {
        OperationView::Key(o, _, args) => key_arity(o) == Some(args.len()),
        _ => true,
    }
}

/// The result of an operation, to be encoded into a response body.
#[derive(PartialEq, Eq, Clone, Debug)]
pub enum ConvertResult {
    Ping(ResultPing),
    ListProviders(ResultListProviders),
    ListOpcodes(ResultListOpcodes),
    ListAuthenticators(ResultListAuthenticators),
    ListKeys(ResultListKeys),
    ListClients(ResultListClients),
    Key(ResultKey),
}

/// What a result holds.
pub enum ResultView {
    Ping(u8, u8),
    ListProviders(Seq<ProviderInfoView>),
    ListOpcodes(Seq<Opcode>),
    ListAuthenticators(Seq<AuthenticatorInfoView>),
    ListKeys(Seq<KeyInfoView>),
    ListClients(Seq<Seq<char>>),
    Key(Opcode, Seq<u8>),
}

impl View for ConvertResult {
    type V = ResultView;

    open spec fn view(&self) -> ResultView {
        match self {
            ConvertResult::Ping(r) => ResultView::Ping(
                r.wire_protocol_version_maj,
                r.wire_protocol_version_min,
            ),
            ConvertResult::ListProviders(r) => ResultView::ListProviders(provider_views(r.providers@)),
            ConvertResult::ListOpcodes(r) => ResultView::ListOpcodes(r.opcodes@),
            ConvertResult::ListAuthenticators(r) => ResultView::ListAuthenticators(
                authenticator_views(r.authenticators@),
            ),
            ConvertResult::ListKeys(r) => ResultView::ListKeys(key_info_views(r.keys@)),
            ConvertResult::ListClients(r) => ResultView::ListClients(string_views(r.clients@)),
            ConvertResult::Key(r) => ResultView::Key(r.opcode, r.output@),
        }
    }
}

/// The opcode of an operation.
pub open spec fn operation_opcode(op: OperationView) -> Opcode {
    match op {
        OperationView::Ping => Opcode::Ping,
        OperationView::ListProviders => Opcode::ListProviders,
        OperationView::ListOpcodes(_) => Opcode::ListOpcodes,
        OperationView::ListAuthenticators => Opcode::ListAuthenticators,
        OperationView::ListKeys => Opcode::ListKeys,
        OperationView::ListClients => Opcode::ListClients,
        OperationView::Key(o, _, _) => o,
    }
}

/// The opcode of the operation that gives a result.
pub open spec fn result_opcode(r: ResultView) -> Opcode {
    match r {
        ResultView::Ping(_, _) => Opcode::Ping,
        ResultView::ListProviders(_) => Opcode::ListProviders,
        ResultView::ListOpcodes(_) => Opcode::ListOpcodes,
        ResultView::ListAuthenticators(_) => Opcode::ListAuthenticators,
        ResultView::ListKeys(_) => Opcode::ListKeys,
        ResultView::ListClients(_) => Opcode::ListClients,
        ResultView::Key(o, _) => o,
    }
}

/// A singular varint field as protobuf writes it: left out where it is zero.
pub open spec fn scalar_fields(tag: u64, v: u64) -> Seq<WireField> {
    if v == 0 {
        Seq::empty()
    } else {
        seq![WireField::Varint(tag, v)]
    }
}

/// The numbers of a list of opcodes.
pub open spec fn opcode_numbers(ops: Seq<Opcode>) -> Seq<u64> {
    ops.map_values(|o: Opcode| opcode_value(o) as u64)
}

/// The opcodes that a list of numbers names.
pub open spec fn opcodes_of_numbers(vs: Seq<u64>) -> Seq<Opcode> {
    vs.map_values(|v: u64| opcode_from_value(v as u16))
}

/// A string field as protobuf writes it: left out where it is empty.
pub open spec fn str_fields(tag: u64, s: Seq<char>) -> Seq<WireField> {
    if s.len() == 0 {
        Seq::empty()
    } else {
        seq![WireField::Bytes(tag, encode_utf8(s))]
    }
}

/// The fields of a provider description.
pub open spec fn provider_info_fields(p: ProviderInfoView) -> Seq<WireField> {
    str_fields(1, p.uuid) + str_fields(2, p.description) + str_fields(3, p.vendor) + scalar_fields(
        4,
        p.version_maj as u64,
    ) + scalar_fields(5, p.version_min as u64) + scalar_fields(6, p.version_rev as u64)
        + scalar_fields(7, provider_tag(p.id) as u64)
}

/// The fields of an authenticator description.
pub open spec fn authenticator_info_fields(a: AuthenticatorInfoView) -> Seq<WireField> {
    str_fields(1, a.description) + scalar_fields(2, a.version_maj as u64) + scalar_fields(
        3,
        a.version_min as u64,
    ) + scalar_fields(4, a.version_rev as u64) + scalar_fields(5, auth_type_tag(a.id) as u64)
}

/// The text of a string field, where its bytes are UTF-8.
pub open spec fn string_of(b: Option<Seq<u8>>) -> Option<Seq<char>> {
    match b {
        Some(x) => if valid_utf8(x) {
            Some(decode_utf8(x))
        } else {
            None
        },
        None => None,
    }
}

/// The value of a `uint32` field, where it fits.
pub open spec fn u32_of(v: Option<u64>) -> Option<u32> {
    match v {
        Some(x) => if x <= u32::MAX {
            Some(x as u32)
        } else {
            None
        },
        None => None,
    }
}

/// The provider description that a nested message carries.
pub open spec fn decode_provider_info(b: Seq<u8>) -> Option<ProviderInfoView> {
    match parse_fields(b) {
        None => None,
        Some(fs) => match (
            string_of(bytes_field(fs, 1)),
            string_of(bytes_field(fs, 2)),
            string_of(bytes_field(fs, 3)),
            u32_of(scalar_field(fs, 4)),
            u32_of(scalar_field(fs, 5)),
            u32_of(scalar_field(fs, 6)),
            scalar_field(fs, 7),
        ) {
            (Some(uuid), Some(description), Some(vendor), Some(maj), Some(min), Some(rev), Some(id)) => {
                if id < 5 {
                    Some(
                        ProviderInfoView {
                            uuid,
                            description,
                            vendor,
                            version_maj: maj,
                            version_min: min,
                            version_rev: rev,
                            id: provider_from_tag(id as u8),
                        },
                    )
                } else {
                    None
                }
            },
            _ => None,
        },
    }
}

/// The authenticator with a tag below 3.
pub open spec fn auth_type_from_tag(v: u8) -> AuthType {
    if v == 0 {
        AuthType::NoAuth
    } else if v == 1 {
        AuthType::Direct
    } else {
        AuthType::UnixPeerCredentials
    }
}

/// The authenticator description that a nested message carries.
pub open spec fn decode_authenticator_info(b: Seq<u8>) -> Option<AuthenticatorInfoView> {
    match parse_fields(b) {
        None => None,
        Some(fs) => match (
            string_of(bytes_field(fs, 1)),
            u32_of(scalar_field(fs, 2)),
            u32_of(scalar_field(fs, 3)),
            u32_of(scalar_field(fs, 4)),
            scalar_field(fs, 5),
        ) {
            (Some(description), Some(maj), Some(min), Some(rev), Some(id)) => {
                if id < 3 {
                    Some(
                        AuthenticatorInfoView {
                            description,
                            version_maj: maj,
                            version_min: min,
                            version_rev: rev,
                            id: auth_type_from_tag(id as u8),
                        },
                    )
                } else {
                    None
                }
            },
            _ => None,
        },
    }
}

/// The fields of a key description.
pub open spec fn key_info_fields(k: KeyInfoView) -> Seq<WireField> {
    scalar_fields(1, provider_tag(k.provider_id) as u64) + str_fields(2, k.name) + bytes_piece(
        3,
        k.attributes,
    )
}

/// The nested messages of a list of key descriptions.
pub open spec fn key_info_messages(ks: Seq<KeyInfoView>) -> Seq<Seq<u8>> {
    ks.map_values(|k: KeyInfoView| fields_bytes(key_info_fields(k)))
}

/// The values of a repeated string field.
pub open spec fn client_messages(cs: Seq<Seq<char>>) -> Seq<Seq<u8>> {
    cs.map_values(|c: Seq<char>| encode_utf8(c))
}

/// The key description that a nested message carries.
pub open spec fn decode_key_info(b: Seq<u8>) -> Option<KeyInfoView> {
    match parse_fields(b) {
        None => None,
        Some(fs) => match (scalar_field(fs, 1), string_of(bytes_field(fs, 2)), bytes_field(fs, 3)) {
            (Some(id), Some(name), Some(attributes)) => if id < 5 {
                Some(KeyInfoView { provider_id: provider_from_tag(id as u8), name, attributes })
            } else {
                None
            },
            _ => None,
        },
    }
}

/// The key descriptions that a list of nested messages carries.
pub open spec fn decode_key_infos(bs: Seq<Seq<u8>>) -> Option<Seq<KeyInfoView>>
    decreases bs.len(),
{
    if bs.len() == 0 {
        Some(Seq::empty())
    } else {
        match (decode_key_infos(bs.drop_last()), decode_key_info(bs.last())) {
            (Some(ks), Some(k)) => Some(ks.push(k)),
            _ => None,
        }
    }
}

/// The strings that the values of a repeated string field hold.
pub open spec fn decode_strings(bs: Seq<Seq<u8>>) -> Option<Seq<Seq<char>>>
    decreases bs.len(),
{
    if bs.len() == 0 {
        Some(Seq::empty())
    } else {
        match (decode_strings(bs.drop_last()), string_of(Some(bs.last()))) {
            (Some(cs), Some(c)) => Some(cs.push(c)),
            _ => None,
        }
    }
}

/// The provider descriptions that a list of nested messages carries.
pub open spec fn decode_provider_infos(bs: Seq<Seq<u8>>) -> Option<Seq<ProviderInfoView>>
    decreases bs.len(),
{
    if bs.len() == 0 {
        Some(Seq::empty())
    } else {
        match (decode_provider_infos(bs.drop_last()), decode_provider_info(bs.last())) {
            (Some(ps), Some(p)) => Some(ps.push(p)),
            _ => None,
        }
    }
}

/// The authenticator descriptions that a list of nested messages carries.
pub open spec fn decode_authenticator_infos(bs: Seq<Seq<u8>>) -> Option<Seq<AuthenticatorInfoView>>
    decreases bs.len(),
{
    if bs.len() == 0 {
        Some(Seq::empty())
    } else {
        match (decode_authenticator_infos(bs.drop_last()), decode_authenticator_info(bs.last())) {
            (Some(ps), Some(p)) => Some(ps.push(p)),
            _ => None,
        }
    }
}

/// The nested messages of a list of provider descriptions.
pub open spec fn provider_info_messages(ps: Seq<ProviderInfoView>) -> Seq<Seq<u8>> {
    ps.map_values(|p: ProviderInfoView| fields_bytes(provider_info_fields(p)))
}

/// The nested messages of a list of authenticator descriptions.
pub open spec fn authenticator_info_messages(ps: Seq<AuthenticatorInfoView>) -> Seq<Seq<u8>> {
    ps.map_values(|a: AuthenticatorInfoView| fields_bytes(authenticator_info_fields(a)))
}

/// A repeated field of nested messages.
pub open spec fn message_fields(tag: u64, ms: Seq<Seq<u8>>) -> Seq<WireField> {
    ms.map_values(|m: Seq<u8>| WireField::Bytes(tag, m))
}

/// A bytes field as protobuf writes it: left out where it is empty.
pub open spec fn bytes_piece(tag: u64, b: Seq<u8>) -> Seq<WireField> {
    if b.len() == 0 {
        Seq::empty()
    } else {
        seq![WireField::Bytes(tag, b)]
    }
}

/// The pieces of the message of an operation on a key: the name as field 1,
/// then each argument as the next field.
pub open spec fn key_op_pieces(name: Seq<char>, args: Seq<Seq<u8>>) -> Seq<Seq<WireField>> {
    seq![str_fields(1, name)] + Seq::new(args.len(), |i: int| bytes_piece((i + 2) as u64, args[i]))
}

/// The fields of the message that carries an operation.
pub open spec fn operation_fields(op: OperationView) -> Seq<WireField> {
    match op {
        OperationView::ListOpcodes(p) => scalar_fields(1, provider_tag(p) as u64),
        OperationView::Key(_, name, args) => concat_pieces(key_op_pieces(name, args)),
        _ => Seq::empty(),
    }
}

/// The first `n` arguments of an operation on a key: fields 2 to `n + 1`.
pub open spec fn key_args(fs: Seq<WireField>, n: nat) -> Option<Seq<Seq<u8>>>
    decreases n,
{
    if n == 0 {
        Some(Seq::empty())
    } else {
        match (key_args(fs, (n - 1) as nat), bytes_field(fs, (n + 1) as u64)) {
            (Some(a), Some(b)) => Some(a.push(b)),
            _ => None,
        }
    }
}

/// The fields of the message that carries a result; a repeated field is packed.
pub open spec fn result_fields(r: ResultView) -> Seq<WireField> {
    match r {
        ResultView::Ping(maj, min) => scalar_fields(1, maj as u64) + scalar_fields(2, min as u64),
        ResultView::ListOpcodes(ops) => if ops.len() == 0 {
            Seq::empty()
        } else {
            seq![WireField::Bytes(1, varints_bytes(opcode_numbers(ops)))]
        },
        ResultView::ListProviders(ps) => message_fields(1, provider_info_messages(ps)),
        ResultView::ListAuthenticators(a) => message_fields(1, authenticator_info_messages(a)),
        ResultView::ListKeys(ks) => message_fields(1, key_info_messages(ks)),
        ResultView::ListClients(cs) => message_fields(1, client_messages(cs)),
        ResultView::Key(_, out) => bytes_piece(1, out),
    }
}

/// The body that carries an operation.
pub open spec fn operation_body(op: OperationView) -> Seq<u8> {
    fields_bytes(operation_fields(op))
}

/// The body that carries a result.
pub open spec fn result_body(r: ResultView) -> Seq<u8> {
    fields_bytes(result_fields(r))
}

/// The operation that a body carries under an opcode; fields of other numbers
/// are skipped.
pub open spec fn decode_operation(s: Seq<u8>, opcode: Opcode) -> Result<
    OperationView,
    ResponseStatus,
> {
    match parse_fields(s) {
        None => Err(ResponseStatus::DeserializingBodyFailed),
        Some(fs) => match opcode {
            Opcode::Ping => Ok(OperationView::Ping),
            Opcode::ListProviders => Ok(OperationView::ListProviders),
            Opcode::ListAuthenticators => Ok(OperationView::ListAuthenticators),
            Opcode::ListKeys => Ok(OperationView::ListKeys),
            Opcode::ListClients => Ok(OperationView::ListClients),
            Opcode::ListOpcodes => match scalar_field(fs, 1) {
                Some(v) => if v < 5 {
                    Ok(OperationView::ListOpcodes(provider_from_tag(v as u8)))
                } else {
                    Err(ResponseStatus::DeserializingBodyFailed)
                },
                None => Err(ResponseStatus::DeserializingBodyFailed),
            },
            _ => match (key_arity(opcode), string_of(bytes_field(fs, 1))) {
                (Some(n), Some(name)) => match key_args(fs, n) {
                    Some(args) => Ok(OperationView::Key(opcode, name, args)),
                    None => Err(ResponseStatus::DeserializingBodyFailed),
                },
                _ => Err(ResponseStatus::DeserializingBodyFailed),
            },
        },
    }
}

/// Every number of the list is an opcode.
pub open spec fn all_opcodes(vs: Seq<u64>) -> bool {
    forall|i: int| 0 <= i < vs.len() ==> #[trigger] vs[i] <= u16::MAX && is_opcode_value(vs[i] as u16)
}

/// The result that a body carries under an opcode.
pub open spec fn decode_result(s: Seq<u8>, opcode: Opcode) -> Result<ResultView, ResponseStatus> {
    match parse_fields(s) {
        None => Err(ResponseStatus::DeserializingBodyFailed),
        Some(fs) => match opcode {
            Opcode::Ping => match (scalar_field(fs, 1), scalar_field(fs, 2)) {
                (Some(maj), Some(min)) => if maj <= 255 && min <= 255 {
                    Ok(ResultView::Ping(maj as u8, min as u8))
                } else {
                    Err(ResponseStatus::DeserializingBodyFailed)
                },
                _ => Err(ResponseStatus::DeserializingBodyFailed),
            },
            Opcode::ListProviders => match repeated_bytes_field(fs, 1) {
                Some(bs) => match decode_provider_infos(bs) {
                    Some(ps) => Ok(ResultView::ListProviders(ps)),
                    None => Err(ResponseStatus::DeserializingBodyFailed),
                },
                None => Err(ResponseStatus::DeserializingBodyFailed),
            },
            Opcode::ListAuthenticators => match repeated_bytes_field(fs, 1) {
                Some(bs) => match decode_authenticator_infos(bs) {
                    Some(a) => Ok(ResultView::ListAuthenticators(a)),
                    None => Err(ResponseStatus::DeserializingBodyFailed),
                },
                None => Err(ResponseStatus::DeserializingBodyFailed),
            },
            Opcode::ListOpcodes => match repeated_field(fs, 1) {
                Some(vs) => if all_opcodes(vs) {
                    Ok(ResultView::ListOpcodes(opcodes_of_numbers(vs)))
                } else {
                    Err(ResponseStatus::DeserializingBodyFailed)
                },
                None => Err(ResponseStatus::DeserializingBodyFailed),
            },
            Opcode::ListKeys => match repeated_bytes_field(fs, 1) {
                Some(bs) => match decode_key_infos(bs) {
                    Some(ks) => Ok(ResultView::ListKeys(ks)),
                    None => Err(ResponseStatus::DeserializingBodyFailed),
                },
                None => Err(ResponseStatus::DeserializingBodyFailed),
            },
            Opcode::ListClients => match repeated_bytes_field(fs, 1) {
                Some(bs) => match decode_strings(bs) {
                    Some(cs) => Ok(ResultView::ListClients(cs)),
                    None => Err(ResponseStatus::DeserializingBodyFailed),
                },
                None => Err(ResponseStatus::DeserializingBodyFailed),
            },
            _ => if key_arity(opcode) is Some {
                match bytes_field(fs, 1) {
                    Some(b) => Ok(ResultView::Key(opcode, b)),
                    None => Err(ResponseStatus::DeserializingBodyFailed),
                }
            } else {
                Err(ResponseStatus::DeserializingBodyFailed)
            },
        },
    }
}

proof fn lemma_decode_prefix_fails_providers(bs: Seq<Seq<u8>>, i: int)
    requires
        0 <= i < bs.len(),
        decode_provider_info(bs[i]) is None,
    ensures
        decode_provider_infos(bs) is None,
    decreases bs.len(),
{
    if i < bs.len() - 1 {
        assert(bs.drop_last()[i] == bs[i]);
        lemma_decode_prefix_fails_providers(bs.drop_last(), i);
    }
}

proof fn lemma_decode_prefix_fails_authenticators(bs: Seq<Seq<u8>>, i: int)
    requires
        0 <= i < bs.len(),
        decode_authenticator_info(bs[i]) is None,
    ensures
        decode_authenticator_infos(bs) is None,
    decreases bs.len(),
{
    if i < bs.len() - 1 {
        assert(bs.drop_last()[i] == bs[i]);
        lemma_decode_prefix_fails_authenticators(bs.drop_last(), i);
    }
}

/// Decoding the body of a well-typed operation under its opcode gives the
/// operation back.
pub proof fn lemma_operation_round_trip(op: OperationView)
    requires
        operation_well_typed(op),
        operation_body(op).len() <= usize::MAX,
    ensures
        decode_operation(operation_body(op), operation_opcode(op)) == Ok::<_, ResponseStatus>(op),
{
    let fs = operation_fields(op);
    match op {
        OperationView::ListOpcodes(p) => {
            assert(fields_encodable(fs));
            lemma_fields_round_trip(fs);
            lemma_provider_from_tag(p);
            reveal_with_fuel(scalar_field, 2);
            assert(scalar_field(fs, 1) == Some(provider_tag(p) as u64));
        },
        OperationView::Key(o, name, args) => {
            lemma_key_op_round_trip(o, name, args);
        },
        _ => {
            assert(fs =~= Seq::<WireField>::empty());
            assert(fields_encodable(fs));
            lemma_fields_round_trip(fs);
        },
    }
}

proof fn lemma_bytes_piece(tag: u64, b: Seq<u8>)
    ensures
        tags_within(bytes_piece(tag, b), tag, tag),
        bytes_field(bytes_piece(tag, b), tag) == Some(b),
{
    reveal_with_fuel(bytes_field, 2);
    if b.len() == 0 {
        assert(b =~= Seq::<u8>::empty());
    }
}

proof fn lemma_key_args(ps: Seq<Seq<WireField>>, args: Seq<Seq<u8>>, n: nat)
    requires
        numbered_pieces(ps),
        ps.len() < 0x1000,
        ps.len() == args.len() + 1,
        n <= args.len(),
        forall|i: int| 0 <= i < args.len() ==> bytes_field(#[trigger] ps[i + 1], (i + 2) as u64) == Some(args[i]),
    ensures
        key_args(concat_pieces(ps), n) == Some(args.subrange(0, n as int)),
    decreases n,
{
    if n == 0 {
        assert(args.subrange(0, 0) =~= Seq::<Seq<u8>>::empty());
    } else {
        lemma_key_args(ps, args, (n - 1) as nat);
        crate::protobuf::lemma_lookup_piece(ps, n as int);
        assert(bytes_field(ps[n as int], (n + 1) as u64) == Some(args[n - 1]));
        assert(args.subrange(0, n - 1).push(args[n - 1]) =~= args.subrange(0, n as int));
    }
}

proof fn lemma_key_op_round_trip(o: Opcode, name: Seq<char>, args: Seq<Seq<u8>>)
    requires
        key_arity(o) == Some(args.len()),
        operation_body(OperationView::Key(o, name, args)).len() <= usize::MAX,
    ensures
        decode_operation(operation_body(OperationView::Key(o, name, args)), o) == Ok::<_, ResponseStatus>(
            OperationView::Key(o, name, args),
        ),
{
    let ps = key_op_pieces(name, args);
    let fs = concat_pieces(ps);
    lemma_str_piece(1, name);
    assert forall|i: int| 0 <= i < args.len() implies bytes_field(#[trigger] ps[i + 1], (i + 2) as u64) == Some(args[i])
        && tags_within(ps[i + 1], (i + 2) as u64, (i + 2) as u64) by {
        assert(ps[i + 1] == bytes_piece((i + 2) as u64, args[i]));
        lemma_bytes_piece((i + 2) as u64, args[i]);
    }
    assert(numbered_pieces(ps)) by {
        assert forall|i: int| 0 <= i < ps.len() implies tags_within(#[trigger] ps[i], (i + 1) as u64, (i + 1) as u64) by {
            if i == 0 {
                assert(ps[0] == str_fields(1, name));
            } else {
                assert(ps[(i - 1) + 1] == ps[i]);
            }
        }
    }
    crate::protobuf::lemma_concat_pieces_tags(ps);
    lemma_encodable_by_size(fs, ps.len() as u64);
    lemma_fields_round_trip(fs);
    crate::protobuf::lemma_lookup_piece(ps, 0);
    assert(ps[0] == str_fields(1, name));
    lemma_key_args(ps, args, args.len());
    assert(args.subrange(0, args.len() as int) =~= args);
}

proof fn lemma_opcode_numbers_len(ops: Seq<Opcode>)
    ensures
        varints_bytes(opcode_numbers(ops)).len() == ops.len(),
    decreases ops.len(),
{
    if ops.len() > 0 {
        let vs = opcode_numbers(ops);
        assert(opcode_numbers(ops.drop_first()) =~= vs.drop_first());
        lemma_opcode_numbers_len(ops.drop_first());
        assert(vs[0] < 128);
        assert(varint(vs[0]).len() == 1);
    }
}

/// Decoding the body of a result under its opcode gives the result back.
pub proof fn lemma_result_round_trip(r: ResultView)
    requires
        result_fits(r),
    ensures
        decode_result(result_body(r), result_opcode(r)) == Ok::<_, ResponseStatus>(r),
{
    let fs = result_fields(r);
    match r {
        ResultView::Ping(maj, min) => {
            assert(fields_encodable(fs));
            lemma_fields_round_trip(fs);
            reveal_with_fuel(scalar_field, 3);
            if maj != 0 && min != 0 {
                assert(fs.drop_last() =~= seq![WireField::Varint(1, maj as u64)]);
            } else if maj != 0 {
                assert(fs =~= seq![WireField::Varint(1, maj as u64)]);
            } else if min != 0 {
                assert(fs =~= seq![WireField::Varint(2, min as u64)]);
            } else {
                assert(fs =~= Seq::<WireField>::empty());
            }
            assert(scalar_field(fs, 1) == Some(maj as u64));
            assert(scalar_field(fs, 2) == Some(min as u64));
        },
        ResultView::ListOpcodes(ops) => {
            let vs = opcode_numbers(ops);
            lemma_opcode_numbers_len(ops);
            assert(fields_encodable(fs));
            lemma_fields_round_trip(fs);
            reveal_with_fuel(repeated_field, 2);
            if ops.len() == 0 {
                assert(repeated_field(fs, 1) == Some(Seq::<u64>::empty()));
            } else {
                lemma_varints_round_trip(vs);
                assert(fs.drop_last() =~= Seq::<WireField>::empty());
                assert(Seq::<u64>::empty() + vs =~= vs);
                assert(repeated_field(fs, 1) == Some(vs));
            }
            let rs = repeated_field(fs, 1).unwrap();
            assert(rs == vs);
            assert forall|i: int| 0 <= i < vs.len() implies #[trigger] vs[i] <= u16::MAX
                && is_opcode_value(vs[i] as u16) by {
                lemma_opcode_from_value(ops[i]);
            }
            assert forall|i: int| 0 <= i < ops.len() implies #[trigger] opcodes_of_numbers(vs)[i] == ops[i] by {
                lemma_opcode_from_value(ops[i]);
            }
            assert(opcodes_of_numbers(vs) =~= ops);
        },
        ResultView::ListProviders(ps) => {
            let ms = provider_info_messages(ps);
            assert(fields_encodable(fs)) by {
                assert forall|i: int| 0 <= i < fs.len() implies match #[trigger] fs[i] {
                    WireField::Varint(t, _) => crate::protobuf::valid_tag(t),
                    WireField::Bytes(t, b) => crate::protobuf::valid_tag(t) && b.len() <= u64::MAX,
                } by {
                    assert(provider_info_fits(ps[i]));
                }
            }
            lemma_fields_round_trip(fs);
            lemma_repeated_bytes(ms, 1);
            lemma_decode_provider_infos(ps);
        },
        ResultView::ListAuthenticators(a) => {
            let ms = authenticator_info_messages(a);
            assert(fields_encodable(fs)) by {
                assert forall|i: int| 0 <= i < fs.len() implies match #[trigger] fs[i] {
                    WireField::Varint(t, _) => crate::protobuf::valid_tag(t),
                    WireField::Bytes(t, b) => crate::protobuf::valid_tag(t) && b.len() <= u64::MAX,
                } by {
                    assert(authenticator_info_fits(a[i]));
                }
            }
            lemma_fields_round_trip(fs);
            lemma_repeated_bytes(ms, 1);
            lemma_decode_authenticator_infos(a);
        },
        ResultView::ListKeys(ks) => {
            lemma_list_keys_round_trip(ks);
        },
        ResultView::ListClients(cs) => {
            lemma_list_clients_round_trip(cs);
        },
        ResultView::Key(o, out) => {
            lemma_key_result_round_trip(o, out);
        },
    }
}

proof fn lemma_list_keys_round_trip(ks: Seq<KeyInfoView>)
    requires
        forall|i: int| 0 <= i < ks.len() ==> key_info_fits(#[trigger] ks[i]),
    ensures
        decode_result(result_body(ResultView::ListKeys(ks)), Opcode::ListKeys) == Ok::<_, ResponseStatus>(ResultView::ListKeys(ks)),
{
    let fs = result_fields(ResultView::ListKeys(ks));
            let ms = key_info_messages(ks);
            assert(fields_encodable(fs)) by {
                assert forall|i: int| 0 <= i < fs.len() implies match #[trigger] fs[i] {
                    WireField::Varint(t, _) => crate::protobuf::valid_tag(t),
                    WireField::Bytes(t, b) => crate::protobuf::valid_tag(t) && b.len() <= u64::MAX,
                } by {
                    assert(key_info_fits(ks[i]));
                }
            }
            lemma_fields_round_trip(fs);
            lemma_repeated_bytes(ms, 1);
            lemma_decode_key_infos(ks);
}

proof fn lemma_list_clients_round_trip(cs: Seq<Seq<char>>)
    requires
        forall|i: int| 0 <= i < cs.len() ==> encode_utf8(#[trigger] cs[i]).len() <= usize::MAX,
    ensures
        decode_result(result_body(ResultView::ListClients(cs)), Opcode::ListClients) == Ok::<_, ResponseStatus>(ResultView::ListClients(cs)),
{
    let fs = result_fields(ResultView::ListClients(cs));
            let ms = client_messages(cs);
            assert(fields_encodable(fs)) by {
                assert forall|i: int| 0 <= i < fs.len() implies match #[trigger] fs[i] {
                    WireField::Varint(t, _) => crate::protobuf::valid_tag(t),
                    WireField::Bytes(t, b) => crate::protobuf::valid_tag(t) && b.len() <= u64::MAX,
                } by {
                    assert(encode_utf8(cs[i]).len() <= usize::MAX);
                }
            }
            lemma_fields_round_trip(fs);
            lemma_repeated_bytes(ms, 1);
            lemma_decode_strings(cs);
}

proof fn lemma_key_result_round_trip(o: Opcode, out: Seq<u8>)
    requires
        key_arity(o) is Some,
        out.len() <= usize::MAX,
    ensures
        decode_result(result_body(ResultView::Key(o, out)), o) == Ok::<_, ResponseStatus>(ResultView::Key(o, out)),
{
    let fs = result_fields(ResultView::Key(o, out));
            lemma_bytes_piece(1, out);
            assert(fields_encodable(fs)) by {
                reveal_with_fuel(fields_bytes, 2);
            }
            lemma_fields_round_trip(fs);
}

/// The encoding of a key description fits a machine word.
pub open spec fn key_info_fits(k: KeyInfoView) -> bool {
    fields_bytes(key_info_fields(k)).len() <= usize::MAX
}

#[verifier::rlimit(60)]
proof fn lemma_decode_key_info(k: KeyInfoView)
    requires
        key_info_fits(k),
    ensures
        decode_key_info(fields_bytes(key_info_fields(k))) == Some(k),
{
    let a1 = scalar_fields(1, provider_tag(k.provider_id) as u64);
    let a2 = str_fields(2, k.name);
    let a3 = bytes_piece(3, k.attributes);
    let s0 = Seq::<Seq<WireField>>::empty();
    let pieces = s0.push(a1).push(a2).push(a3);
    crate::protobuf::lemma_concat_pieces_push(s0, a1);
    crate::protobuf::lemma_concat_pieces_push(s0.push(a1), a2);
    crate::protobuf::lemma_concat_pieces_push(s0.push(a1).push(a2), a3);
    assert(concat_pieces(s0) =~= Seq::<WireField>::empty());
    let fs = key_info_fields(k);
    assert(concat_pieces(pieces) =~= fs);
    lemma_scalar_piece(1, provider_tag(k.provider_id) as u64);
    lemma_str_piece(2, k.name);
    lemma_bytes_piece(3, k.attributes);
    assert(pieces[0] == a1 && pieces[1] == a2 && pieces[2] == a3);
    assert(numbered_pieces(pieces));
    crate::protobuf::lemma_concat_pieces_tags(pieces);
    lemma_encodable_by_size(fs, 3);
    lemma_fields_round_trip(fs);
    crate::protobuf::lemma_lookup_piece(pieces, 0);
    crate::protobuf::lemma_lookup_piece(pieces, 1);
    crate::protobuf::lemma_lookup_piece(pieces, 2);
    lemma_provider_from_tag(k.provider_id);
}

proof fn lemma_decode_key_infos(ks: Seq<KeyInfoView>)
    requires
        forall|i: int| 0 <= i < ks.len() ==> key_info_fits(#[trigger] ks[i]),
    ensures
        decode_key_infos(key_info_messages(ks)) == Some(ks),
    decreases ks.len(),
{
    if ks.len() > 0 {
        let ms = key_info_messages(ks);
        assert(ms.drop_last() =~= key_info_messages(ks.drop_last()));
        lemma_decode_key_infos(ks.drop_last());
        lemma_decode_key_info(ks.last());
        assert(ks.drop_last().push(ks.last()) =~= ks);
    } else {
        assert(ks =~= Seq::<KeyInfoView>::empty());
    }
}

proof fn lemma_decode_strings(cs: Seq<Seq<char>>)
    ensures
        decode_strings(client_messages(cs)) == Some(cs),
    decreases cs.len(),
{
    if cs.len() > 0 {
        let ms = client_messages(cs);
        assert(ms.drop_last() =~= client_messages(cs.drop_last()));
        lemma_decode_strings(cs.drop_last());
        encode_utf8_valid_utf8(cs.last());
        encode_utf8_decode_utf8(cs.last());
        assert(cs.drop_last().push(cs.last()) =~= cs);
    } else {
        assert(cs =~= Seq::<Seq<char>>::empty());
    }
}

/// What a result that stands in memory satisfies: its lists and the encodings
/// of its strings and nested messages have lengths that fit a machine word.
pub open spec fn result_fits(r: ResultView) -> bool {
    match r {
        ResultView::ListOpcodes(ops) => ops.len() <= usize::MAX,
        ResultView::ListProviders(ps) => forall|i: int| 0 <= i < ps.len() ==> provider_info_fits(#[trigger] ps[i]),
        ResultView::ListAuthenticators(a) => forall|i: int| 0 <= i < a.len() ==> authenticator_info_fits(#[trigger] a[i]),
        ResultView::ListKeys(ks) => forall|i: int| 0 <= i < ks.len() ==> key_info_fits(#[trigger] ks[i]),
        ResultView::ListClients(cs) => forall|i: int| 0 <= i < cs.len() ==> encode_utf8(#[trigger] cs[i]).len() <= usize::MAX,
        ResultView::Key(o, out) => key_arity(o) is Some && out.len() <= usize::MAX,
        _ => true,
    }
}

/// The encoding of a provider description fits a machine word.
pub open spec fn provider_info_fits(p: ProviderInfoView) -> bool {
    fields_bytes(provider_info_fields(p)).len() <= usize::MAX
}

/// The encoding of an authenticator description fits a machine word.
pub open spec fn authenticator_info_fits(a: AuthenticatorInfoView) -> bool {
    fields_bytes(authenticator_info_fields(a)).len() <= usize::MAX
}

proof fn lemma_str_piece(tag: u64, s: Seq<char>)
    ensures
        tags_within(str_fields(tag, s), tag, tag),
        string_of(bytes_field(str_fields(tag, s), tag)) == Some(s),
{
    reveal_with_fuel(bytes_field, 2);
    encode_utf8_valid_utf8(s);
    encode_utf8_decode_utf8(s);
    if s.len() == 0 {
        assert(s =~= Seq::<char>::empty());
        assert(encode_utf8(s) =~= Seq::<u8>::empty());
    }
}

proof fn lemma_scalar_piece(tag: u64, v: u64)
    ensures
        tags_within(scalar_fields(tag, v), tag, tag),
        scalar_field(scalar_fields(tag, v), tag) == Some(v),
{
    reveal_with_fuel(scalar_field, 2);
}

proof fn lemma_encodable_by_size(fs: Seq<WireField>, hi: u64)
    requires
        tags_within(fs, 1, hi),
        hi < 8,
        fields_bytes(fs).len() <= usize::MAX,
    ensures
        fields_encodable(fs),
{
    assert forall|i: int| 0 <= i < fs.len() implies match #[trigger] fs[i] {
        WireField::Varint(t, _) => crate::protobuf::valid_tag(t),
        WireField::Bytes(t, b) => crate::protobuf::valid_tag(t) && b.len() <= u64::MAX,
    } by {
        crate::protobuf::lemma_field_payload_len(fs, i);
        assert(1 <= field_tag(fs[i]) <= hi);
    }
}

#[verifier::rlimit(60)]
proof fn lemma_decode_provider_info(p: ProviderInfoView)
    requires
        provider_info_fits(p),
    ensures
        decode_provider_info(fields_bytes(provider_info_fields(p))) == Some(p),
{
    let a1 = str_fields(1, p.uuid);
    let a2 = str_fields(2, p.description);
    let a3 = str_fields(3, p.vendor);
    let b4 = scalar_fields(4, p.version_maj as u64);
    let b5 = scalar_fields(5, p.version_min as u64);
    let b6 = scalar_fields(6, p.version_rev as u64);
    let b7 = scalar_fields(7, provider_tag(p.id) as u64);
    let s0 = Seq::<Seq<WireField>>::empty();
    let pieces = s0.push(a1).push(a2).push(a3).push(b4).push(b5).push(b6).push(b7);
    crate::protobuf::lemma_concat_pieces_push(s0, a1);
    crate::protobuf::lemma_concat_pieces_push(s0.push(a1), a2);
    crate::protobuf::lemma_concat_pieces_push(s0.push(a1).push(a2), a3);
    crate::protobuf::lemma_concat_pieces_push(s0.push(a1).push(a2).push(a3), b4);
    crate::protobuf::lemma_concat_pieces_push(s0.push(a1).push(a2).push(a3).push(b4), b5);
    crate::protobuf::lemma_concat_pieces_push(s0.push(a1).push(a2).push(a3).push(b4).push(b5), b6);
    crate::protobuf::lemma_concat_pieces_push(s0.push(a1).push(a2).push(a3).push(b4).push(b5).push(b6), b7);
    assert(concat_pieces(s0) =~= Seq::<WireField>::empty());
    let fs = provider_info_fields(p);
    assert(concat_pieces(pieces) =~= fs);
    lemma_str_piece(1, p.uuid);
    lemma_str_piece(2, p.description);
    lemma_str_piece(3, p.vendor);
    lemma_scalar_piece(4, p.version_maj as u64);
    lemma_scalar_piece(5, p.version_min as u64);
    lemma_scalar_piece(6, p.version_rev as u64);
    lemma_scalar_piece(7, provider_tag(p.id) as u64);
    assert(pieces[0] == a1 && pieces[1] == a2 && pieces[2] == a3 && pieces[3] == b4);
    assert(pieces[4] == b5 && pieces[5] == b6 && pieces[6] == b7);
    assert(numbered_pieces(pieces));
    crate::protobuf::lemma_concat_pieces_tags(pieces);
    lemma_encodable_by_size(fs, 7);
    lemma_fields_round_trip(fs);
    crate::protobuf::lemma_lookup_piece(pieces, 0);
    crate::protobuf::lemma_lookup_piece(pieces, 1);
    crate::protobuf::lemma_lookup_piece(pieces, 2);
    crate::protobuf::lemma_lookup_piece(pieces, 3);
    crate::protobuf::lemma_lookup_piece(pieces, 4);
    crate::protobuf::lemma_lookup_piece(pieces, 5);
    crate::protobuf::lemma_lookup_piece(pieces, 6);
    lemma_provider_from_tag(p.id);
}

#[verifier::rlimit(60)]
proof fn lemma_decode_authenticator_info(a: AuthenticatorInfoView)
    requires
        authenticator_info_fits(a),
    ensures
        decode_authenticator_info(fields_bytes(authenticator_info_fields(a))) == Some(a),
{
    let a1 = str_fields(1, a.description);
    let b2 = scalar_fields(2, a.version_maj as u64);
    let b3 = scalar_fields(3, a.version_min as u64);
    let b4 = scalar_fields(4, a.version_rev as u64);
    let b5 = scalar_fields(5, auth_type_tag(a.id) as u64);
    let s0 = Seq::<Seq<WireField>>::empty();
    let pieces = s0.push(a1).push(b2).push(b3).push(b4).push(b5);
    crate::protobuf::lemma_concat_pieces_push(s0, a1);
    crate::protobuf::lemma_concat_pieces_push(s0.push(a1), b2);
    crate::protobuf::lemma_concat_pieces_push(s0.push(a1).push(b2), b3);
    crate::protobuf::lemma_concat_pieces_push(s0.push(a1).push(b2).push(b3), b4);
    crate::protobuf::lemma_concat_pieces_push(s0.push(a1).push(b2).push(b3).push(b4), b5);
    assert(concat_pieces(s0) =~= Seq::<WireField>::empty());
    let fs = authenticator_info_fields(a);
    assert(concat_pieces(pieces) =~= fs);
    lemma_str_piece(1, a.description);
    lemma_scalar_piece(2, a.version_maj as u64);
    lemma_scalar_piece(3, a.version_min as u64);
    lemma_scalar_piece(4, a.version_rev as u64);
    lemma_scalar_piece(5, auth_type_tag(a.id) as u64);
    assert(pieces[0] == a1 && pieces[1] == b2 && pieces[2] == b3 && pieces[3] == b4 && pieces[4] == b5);
    assert(numbered_pieces(pieces));
    crate::protobuf::lemma_concat_pieces_tags(pieces);
    lemma_encodable_by_size(fs, 5);
    lemma_fields_round_trip(fs);
    crate::protobuf::lemma_lookup_piece(pieces, 0);
    crate::protobuf::lemma_lookup_piece(pieces, 1);
    crate::protobuf::lemma_lookup_piece(pieces, 2);
    crate::protobuf::lemma_lookup_piece(pieces, 3);
    crate::protobuf::lemma_lookup_piece(pieces, 4);
    assert(auth_type_from_tag(auth_type_tag(a.id)) == a.id);
}

proof fn lemma_decode_provider_infos(ps: Seq<ProviderInfoView>)
    requires
        forall|i: int| 0 <= i < ps.len() ==> provider_info_fits(#[trigger] ps[i]),
    ensures
        decode_provider_infos(provider_info_messages(ps)) == Some(ps),
    decreases ps.len(),
{
    if ps.len() > 0 {
        let ms = provider_info_messages(ps);
        assert(ms.drop_last() =~= provider_info_messages(ps.drop_last()));
        lemma_decode_provider_infos(ps.drop_last());
        lemma_decode_provider_info(ps.last());
        assert(ps.drop_last().push(ps.last()) =~= ps);
    } else {
        assert(ps =~= Seq::<ProviderInfoView>::empty());
    }
}

proof fn lemma_decode_authenticator_infos(a: Seq<AuthenticatorInfoView>)
    requires
        forall|i: int| 0 <= i < a.len() ==> authenticator_info_fits(#[trigger] a[i]),
    ensures
        decode_authenticator_infos(authenticator_info_messages(a)) == Some(a),
    decreases a.len(),
{
    if a.len() > 0 {
        let ms = authenticator_info_messages(a);
        assert(ms.drop_last() =~= authenticator_info_messages(a.drop_last()));
        lemma_decode_authenticator_infos(a.drop_last());
        lemma_decode_authenticator_info(a.last());
        assert(a.drop_last().push(a.last()) =~= a);
    } else {
        assert(a =~= Seq::<AuthenticatorInfoView>::empty());
    }
}

/// A converter between bodies and typed operations and results, for one body encoding.
pub trait Convert {
    /// The operation that a body carries under an opcode, or the failure.
    spec fn spec_body_to_operation(&self, body: Seq<u8>, opcode: Opcode) -> Result<
        OperationView,
        ResponseStatus,
    >;

    /// The body that carries an operation.
    spec fn spec_body_from_operation(&self, op: OperationView) -> Seq<u8>;

    /// The result that a body carries under an opcode, or the failure.
    spec fn spec_body_to_result(&self, body: Seq<u8>, opcode: Opcode) -> Result<
        ResultView,
        ResponseStatus,
    >;

    /// The body that carries a result.
    spec fn spec_body_from_result(&self, r: ResultView) -> Seq<u8>;

    /// Decodes an operation from a request body.
    ///
    /// Fails with `DeserializingBodyFailed` where the body does not decode.
    fn body_to_operation(&self, body: &[u8], opcode: Opcode) -> (r: Result<
        ConvertOperation,
        ResponseStatus,
    >)
        ensures
            match r {
                Ok(op) => self.spec_body_to_operation(body@, opcode) == Ok::<_, ResponseStatus>(op@),
                Err(e) => self.spec_body_to_operation(body@, opcode) == Err::<OperationView, _>(e),
            },
            r matches Ok(op) ==> operation_opcode(op@) == opcode && operation_well_typed(op@),
    ;

    /// Encodes an operation into a request body.
    ///
    /// Fails with `SerializingBodyFailed` exactly where the operation does not
    /// match the schema of its opcode.
    fn body_from_operation(&self, op: &ConvertOperation) -> (r: Result<Vec<u8>, ResponseStatus>)
        ensures
            match r {
                Ok(b) => operation_well_typed(op@) && b@ == self.spec_body_from_operation(op@),
                Err(e) => e == ResponseStatus::SerializingBodyFailed && !operation_well_typed(op@),
            },
    ;

    /// Decodes a result from a response body.
    ///
    /// Fails with `DeserializingBodyFailed` where the body does not decode.
    fn body_to_result(&self, body: &[u8], opcode: Opcode) -> (r: Result<
        ConvertResult,
        ResponseStatus,
    >)
        ensures
            match r {
                Ok(x) => self.spec_body_to_result(body@, opcode) == Ok::<_, ResponseStatus>(x@),
                Err(e) => self.spec_body_to_result(body@, opcode) == Err::<ResultView, _>(e),
            },
    ;

    /// Encodes a result into a response body; every result can be encoded.
    fn body_from_result(&self, result: &ConvertResult) -> (r: Result<Vec<u8>, ResponseStatus>)
        ensures
            r matches Ok(b) && b@ == self.spec_body_from_result(result@),
    ;
}

/// The converter for protobuf-encoded bodies.
#[derive(PartialEq, Eq, Structural, Clone, Copy, Debug)]
pub struct ProtobufConverter {}

impl ProtobufConverter {
    /// The body that carries an operation; encoding never fails.
    pub fn encode_operation(op: &ConvertOperation) -> (r: Result<Vec<u8>, ResponseStatus>)
        ensures
            match r {
                Ok(b) => operation_well_typed(op@) && b@ == operation_body(op@),
                Err(e) => e == ResponseStatus::SerializingBodyFailed && !operation_well_typed(op@),
            },
    {
        let mut fs: Vec<Field> = Vec::new();
        match op {
            ConvertOperation::ListOpcodes(o) => {
                let tag = o.provider_id.to_u8();
                if tag != 0 {
                    fs.push(Field::Varint(1, tag as u64));
                }
            },
            ConvertOperation::Key(k) => {
                match key_op_arity(k.opcode) {
                    Some(n) => {
                        if n != k.args.len() {
                            return Err(ResponseStatus::SerializingBodyFailed);
                        }
                    },
                    None => return Err(ResponseStatus::SerializingBodyFailed),
                }
                return Ok(encode_key_op(k));
            },
            _ => {},
        }
        assert(fields_view(fs@) =~= operation_fields(op@));
        Ok(encode_fields(&fs))
    }

    /// The body that carries a result; encoding never fails.
    pub fn encode_result(result: &ConvertResult) -> (r: Vec<u8>)
        ensures
            r@ == result_body(result@),
    {
        let mut fs: Vec<Field> = Vec::new();
        match result {
            ConvertResult::Ping(p) => {
                if p.wire_protocol_version_maj != 0 {
                    fs.push(Field::Varint(1, p.wire_protocol_version_maj as u64));
                }
                if p.wire_protocol_version_min != 0 {
                    fs.push(Field::Varint(2, p.wire_protocol_version_min as u64));
                }
            },
            ConvertResult::ListProviders(l) => {
                let mut i: usize = 0;
                while i < l.providers.len()
                    invariant
                        i <= l.providers@.len(),
                        fields_view(fs@) == message_fields(
                            1,
                            provider_info_messages(provider_views(l.providers@.subrange(0, i as int))),
                        ),
                    decreases l.providers@.len() - i,
                {
                    let ghost prev = fields_view(fs@);
                    let ghost sub = l.providers@.subrange(0, i as int);
                    let enc = encode_provider_info(&l.providers[i]);
                    let ghost m = enc@;
                    fs.push(Field::Bytes(1, enc));
                    assert(fields_view(fs@) =~= prev.push(WireField::Bytes(1, m)));
                    assert(l.providers@.subrange(0, i + 1) =~= sub.push(l.providers@[i as int]));
                    assert(provider_views(sub.push(l.providers@[i as int])) =~= provider_views(sub).push(l.providers@[i as int]@));
                    assert(provider_info_messages(provider_views(sub).push(l.providers@[i as int]@)) =~= provider_info_messages(provider_views(sub)).push(m));
                    assert(message_fields(1, provider_info_messages(provider_views(sub)).push(m)) =~= prev.push(WireField::Bytes(1, m)));
                    i = i + 1;
                }
                assert(l.providers@.subrange(0, i as int) =~= l.providers@);
                assert forall|j: int| 0 <= j < fs@.len() implies match #[trigger] fs@[j]@ {
                    WireField::Varint(t, _) => crate::protobuf::valid_tag(t),
                    WireField::Bytes(t, _) => crate::protobuf::valid_tag(t),
                } by {
                    assert(fields_view(fs@)[j] == fs@[j]@);
                }
            },
            ConvertResult::Key(k) => {
                if k.output.len() != 0 {
                    fs.push(Field::Bytes(1, k.output.clone()));
                }
            },
            ConvertResult::ListKeys(l) => {
                let mut i: usize = 0;
                while i < l.keys.len()
                    invariant
                        i <= l.keys@.len(),
                        fields_view(fs@) == message_fields(
                            1,
                            key_info_messages(key_info_views(l.keys@.subrange(0, i as int))),
                        ),
                    decreases l.keys@.len() - i,
                {
                    let ghost prev = fields_view(fs@);
                    let ghost sub = l.keys@.subrange(0, i as int);
                    let enc = encode_key_info(&l.keys[i]);
                    let ghost m = enc@;
                    fs.push(Field::Bytes(1, enc));
                    assert(fields_view(fs@) =~= prev.push(WireField::Bytes(1, m)));
                    assert(l.keys@.subrange(0, i + 1) =~= sub.push(l.keys@[i as int]));
                    assert(key_info_views(sub.push(l.keys@[i as int])) =~= key_info_views(sub).push(l.keys@[i as int]@));
                    assert(key_info_messages(key_info_views(sub).push(l.keys@[i as int]@)) =~= key_info_messages(key_info_views(sub)).push(m));
                    assert(message_fields(1, key_info_messages(key_info_views(sub)).push(m)) =~= prev.push(WireField::Bytes(1, m)));
                    i = i + 1;
                }
                assert(l.keys@.subrange(0, i as int) =~= l.keys@);
                assert forall|j: int| 0 <= j < fs@.len() implies match #[trigger] fs@[j]@ {
                    WireField::Varint(t, _) => crate::protobuf::valid_tag(t),
                    WireField::Bytes(t, _) => crate::protobuf::valid_tag(t),
                } by {
                    assert(fields_view(fs@)[j] == fs@[j]@);
                }
            },
            ConvertResult::ListClients(l) => {
                let mut i: usize = 0;
                while i < l.clients.len()
                    invariant
                        i <= l.clients@.len(),
                        fields_view(fs@) == message_fields(
                            1,
                            client_messages(string_views(l.clients@.subrange(0, i as int))),
                        ),
                    decreases l.clients@.len() - i,
                {
                    let ghost prev = fields_view(fs@);
                    let ghost sub = l.clients@.subrange(0, i as int);
                    let enc = l.clients[i].as_str().as_bytes_vec();
                    let ghost m = enc@;
                    fs.push(Field::Bytes(1, enc));
                    assert(fields_view(fs@) =~= prev.push(WireField::Bytes(1, m)));
                    assert(l.clients@.subrange(0, i + 1) =~= sub.push(l.clients@[i as int]));
                    assert(string_views(sub.push(l.clients@[i as int])) =~= string_views(sub).push(l.clients@[i as int]@));
                    assert(client_messages(string_views(sub).push(l.clients@[i as int]@)) =~= client_messages(string_views(sub)).push(m));
                    assert(message_fields(1, client_messages(string_views(sub)).push(m)) =~= prev.push(WireField::Bytes(1, m)));
                    i = i + 1;
                }
                assert(l.clients@.subrange(0, i as int) =~= l.clients@);
                assert forall|j: int| 0 <= j < fs@.len() implies match #[trigger] fs@[j]@ {
                    WireField::Varint(t, _) => crate::protobuf::valid_tag(t),
                    WireField::Bytes(t, _) => crate::protobuf::valid_tag(t),
                } by {
                    assert(fields_view(fs@)[j] == fs@[j]@);
                }
            },
            ConvertResult::ListAuthenticators(l) => {
                let mut i: usize = 0;
                while i < l.authenticators.len()
                    invariant
                        i <= l.authenticators@.len(),
                        fields_view(fs@) == message_fields(
                            1,
                            authenticator_info_messages(authenticator_views(l.authenticators@.subrange(0, i as int))),
                        ),
                    decreases l.authenticators@.len() - i,
                {
                    let ghost prev = fields_view(fs@);
                    let ghost sub = l.authenticators@.subrange(0, i as int);
                    let enc = encode_authenticator_info(&l.authenticators[i]);
                    let ghost m = enc@;
                    fs.push(Field::Bytes(1, enc));
                    assert(fields_view(fs@) =~= prev.push(WireField::Bytes(1, m)));
                    assert(l.authenticators@.subrange(0, i + 1) =~= sub.push(l.authenticators@[i as int]));
                    assert(authenticator_views(sub.push(l.authenticators@[i as int])) =~= authenticator_views(sub).push(l.authenticators@[i as int]@));
                    assert(authenticator_info_messages(authenticator_views(sub).push(l.authenticators@[i as int]@)) =~= authenticator_info_messages(authenticator_views(sub)).push(m));
                    assert(message_fields(1, authenticator_info_messages(authenticator_views(sub)).push(m)) =~= prev.push(WireField::Bytes(1, m)));
                    i = i + 1;
                }
                assert(l.authenticators@.subrange(0, i as int) =~= l.authenticators@);
                assert forall|j: int| 0 <= j < fs@.len() implies match #[trigger] fs@[j]@ {
                    WireField::Varint(t, _) => crate::protobuf::valid_tag(t),
                    WireField::Bytes(t, _) => crate::protobuf::valid_tag(t),
                } by {
                    assert(fields_view(fs@)[j] == fs@[j]@);
                }
            },
            ConvertResult::ListOpcodes(l) => {
                if l.opcodes.len() != 0 {
                    let mut nums: Vec<u64> = Vec::new();
                    let mut i: usize = 0;
                    while i < l.opcodes.len()
                        invariant
                            i <= l.opcodes@.len(),
                            nums@ == opcode_numbers(l.opcodes@.subrange(0, i as int)),
                        decreases l.opcodes@.len() - i,
                    {
                        nums.push(l.opcodes[i].to_u16() as u64);
                        i = i + 1;
                        assert(nums@ =~= opcode_numbers(l.opcodes@.subrange(0, i as int)));
                    }
                    assert(l.opcodes@.subrange(0, i as int) =~= l.opcodes@);
                    fs.push(Field::Bytes(1, encode_varints(&nums)));
                }
            },
        }
        assert(fields_view(fs@) =~= result_fields(result@));
        encode_fields(&fs)
    }

    /// The operation that a body carries under an opcode.
    pub fn decode_operation(body: &[u8], opcode: Opcode) -> (r: Result<
        ConvertOperation,
        ResponseStatus,
    >)
        ensures
            match r {
                Ok(op) => decode_operation(body@, opcode) == Ok::<_, ResponseStatus>(op@),
                Err(e) => decode_operation(body@, opcode) == Err::<OperationView, _>(e),
            },
            r matches Ok(op) ==> operation_opcode(op@) == opcode && operation_well_typed(op@),
    {
        let fs = match decode_fields(body) {
            Some(fs) => fs,
            None => return Err(ResponseStatus::DeserializingBodyFailed),
        };
        match opcode {
            Opcode::Ping => Ok(ConvertOperation::Ping(OpPing {  })),
            Opcode::ListProviders => Ok(ConvertOperation::ListProviders(OpListProviders {  })),
            Opcode::ListAuthenticators => Ok(
                ConvertOperation::ListAuthenticators(OpListAuthenticators {  }),
            ),
            Opcode::ListKeys => Ok(ConvertOperation::ListKeys(OpListKeys {  })),
            Opcode::ListClients => Ok(ConvertOperation::ListClients(OpListClients {  })),
            Opcode::ListOpcodes => match get_scalar_field(&fs, 1) {
                Some(v) => if v < 5 {
                    match ProviderID::from_u8(v as u8) {
                        Some(p) => Ok(ConvertOperation::ListOpcodes(OpListOpcodes { provider_id: p })),
                        None => Err(ResponseStatus::DeserializingBodyFailed),
                    }
                } else {
                    Err(ResponseStatus::DeserializingBodyFailed)
                },
                None => Err(ResponseStatus::DeserializingBodyFailed),
            },
            _ => {
                let n = match key_op_arity(opcode) {
                    Some(n) => n,
                    None => return Err(ResponseStatus::DeserializingBodyFailed),
                };
                let name = match text_of(get_bytes_field(&fs, 1)) {
                    Some(t) => t,
                    None => return Err(ResponseStatus::DeserializingBodyFailed),
                };
                let mut args: Vec<Vec<u8>> = Vec::new();
                let mut i: usize = 0;
                assert(bytes_views(args@) =~= Seq::<Seq<u8>>::empty());
                while i < n
                    invariant
                        i <= n,
                        n <= 3,
                        key_arity(opcode) == Some(n as nat),
                        key_args(fields_view(fs@), i as nat) == Some(bytes_views(args@)),
                        args@.len() == i,
                        parse_fields(body@) == Some(fields_view(fs@)),
                        string_of(bytes_field(fields_view(fs@), 1)) == Some(name@),
                    decreases n - i,
                {
                    match get_bytes_field(&fs, (i + 2) as u64) {
                        Some(b) => {
                            let ghost before = bytes_views(args@);
                            args.push(b);
                            assert(bytes_views(args@) =~= before.push(args@.last()@));
                        },
                        None => {
                            proof {
                                lemma_key_args_fail(fields_view(fs@), (i + 1) as nat, n as nat);
                            }
                            return Err(ResponseStatus::DeserializingBodyFailed);
                        },
                    }
                    i = i + 1;
                }
                Ok(ConvertOperation::Key(OpKey { opcode, key_name: name, args }))
            },
        }
    }

    /// The result that a body carries under an opcode.
    pub fn decode_result(body: &[u8], opcode: Opcode) -> (r: Result<ConvertResult, ResponseStatus>)
        ensures
            match r {
                Ok(x) => decode_result(body@, opcode) == Ok::<_, ResponseStatus>(x@),
                Err(e) => decode_result(body@, opcode) == Err::<ResultView, _>(e),
            },
    {
        let fs = match decode_fields(body) {
            Some(fs) => fs,
            None => return Err(ResponseStatus::DeserializingBodyFailed),
        };
        match opcode {
            Opcode::Ping => {
                let maj = get_scalar_field(&fs, 1);
                let min = get_scalar_field(&fs, 2);
                match (maj, min) {
                    (Some(a), Some(b)) => if a <= 255 && b <= 255 {
                        Ok(
                            ConvertResult::Ping(
                                ResultPing {
                                    wire_protocol_version_maj: a as u8,
                                    wire_protocol_version_min: b as u8,
                                },
                            ),
                        )
                    } else {
                        Err(ResponseStatus::DeserializingBodyFailed)
                    },
                    _ => Err(ResponseStatus::DeserializingBodyFailed),
                }
            },
            Opcode::ListProviders => {
                let bs = match get_repeated_bytes_field(&fs, 1) {
                    Some(bs) => bs,
                    None => return Err(ResponseStatus::DeserializingBodyFailed),
                };
                let mut out: Vec<ProviderInfo> = Vec::new();
                let mut i: usize = 0;
                assert(bytes_views(bs@).subrange(0, 0) =~= Seq::<Seq<u8>>::empty());
                assert(provider_views(out@) =~= Seq::<ProviderInfoView>::empty());
                while i < bs.len()
                    invariant
                        i <= bs@.len(),
                        decode_provider_infos(bytes_views(bs@).subrange(0, i as int)) == Some(
                            provider_views(out@),
                        ),
                        opcode == Opcode::ListProviders,
                        parse_fields(body@) == Some(fields_view(fs@)),
                        repeated_bytes_field(fields_view(fs@), 1) == Some(bytes_views(bs@)),
                    decreases bs@.len() - i,
                {
                    let ghost cur = bytes_views(bs@).subrange(0, i + 1);
                    assert(cur.drop_last() =~= bytes_views(bs@).subrange(0, i as int));
                    assert(cur.last() == bs@[i as int]@);
                    match decode_provider_info_message(bs[i].as_slice()) {
                        Some(p) => {
                            let ghost before = out@;
                            out.push(p);
                            assert(provider_views(out@) =~= provider_views(before).push(out@.last()@));
                        },
                        None => {
                            proof {
                                assert(bytes_views(bs@)[i as int] == bs@[i as int]@);
                                lemma_decode_prefix_fails_providers(bytes_views(bs@), i as int);
                            }
                            return Err(ResponseStatus::DeserializingBodyFailed);
                        },
                    }
                    i = i + 1;
                }
                assert(bytes_views(bs@).subrange(0, i as int) =~= bytes_views(bs@));
                Ok(ConvertResult::ListProviders(ResultListProviders { providers: out }))
            },
            Opcode::ListAuthenticators => {
                let bs = match get_repeated_bytes_field(&fs, 1) {
                    Some(bs) => bs,
                    None => return Err(ResponseStatus::DeserializingBodyFailed),
                };
                let mut out: Vec<AuthenticatorInfo> = Vec::new();
                let mut i: usize = 0;
                assert(bytes_views(bs@).subrange(0, 0) =~= Seq::<Seq<u8>>::empty());
                assert(authenticator_views(out@) =~= Seq::<AuthenticatorInfoView>::empty());
                while i < bs.len()
                    invariant
                        i <= bs@.len(),
                        decode_authenticator_infos(bytes_views(bs@).subrange(0, i as int)) == Some(
                            authenticator_views(out@),
                        ),
                        opcode == Opcode::ListAuthenticators,
                        parse_fields(body@) == Some(fields_view(fs@)),
                        repeated_bytes_field(fields_view(fs@), 1) == Some(bytes_views(bs@)),
                    decreases bs@.len() - i,
                {
                    let ghost cur = bytes_views(bs@).subrange(0, i + 1);
                    assert(cur.drop_last() =~= bytes_views(bs@).subrange(0, i as int));
                    assert(cur.last() == bs@[i as int]@);
                    match decode_authenticator_info_message(bs[i].as_slice()) {
                        Some(a) => {
                            let ghost before = out@;
                            out.push(a);
                            assert(authenticator_views(out@) =~= authenticator_views(before).push(out@.last()@));
                        },
                        None => {
                            proof {
                                assert(bytes_views(bs@)[i as int] == bs@[i as int]@);
                                lemma_decode_prefix_fails_authenticators(bytes_views(bs@), i as int);
                            }
                            return Err(ResponseStatus::DeserializingBodyFailed);
                        },
                    }
                    i = i + 1;
                }
                assert(bytes_views(bs@).subrange(0, i as int) =~= bytes_views(bs@));
                Ok(ConvertResult::ListAuthenticators(ResultListAuthenticators { authenticators: out }))
            },
            Opcode::ListKeys => {
                let bs = match get_repeated_bytes_field(&fs, 1) {
                    Some(bs) => bs,
                    None => return Err(ResponseStatus::DeserializingBodyFailed),
                };
                match decode_key_info_list(&bs) {
                    Some(keys) => Ok(ConvertResult::ListKeys(ResultListKeys { keys })),
                    None => Err(ResponseStatus::DeserializingBodyFailed),
                }
            },
            Opcode::ListClients => {
                let bs = match get_repeated_bytes_field(&fs, 1) {
                    Some(bs) => bs,
                    None => return Err(ResponseStatus::DeserializingBodyFailed),
                };
                match decode_string_list(bs) {
                    Some(clients) => Ok(ConvertResult::ListClients(ResultListClients { clients })),
                    None => Err(ResponseStatus::DeserializingBodyFailed),
                }
            },
            Opcode::ListOpcodes => {
                let vs = match get_repeated_field(&fs, 1) {
                    Some(vs) => vs,
                    None => return Err(ResponseStatus::DeserializingBodyFailed),
                };
                match numbers_to_opcodes(&vs) {
                    Some(ops) => Ok(ConvertResult::ListOpcodes(ResultListOpcodes { opcodes: ops })),
                    None => Err(ResponseStatus::DeserializingBodyFailed),
                }
            },
            _ => {
                if key_op_arity(opcode).is_none() {
                    return Err(ResponseStatus::DeserializingBodyFailed);
                }
                match get_bytes_field(&fs, 1) {
                    Some(output) => Ok(ConvertResult::Key(ResultKey { opcode, output })),
                    None => Err(ResponseStatus::DeserializingBodyFailed),
                }
            },
        }
    }
}

proof fn lemma_key_args_fail(fs: Seq<WireField>, k: nat, n: nat)
    requires
        1 <= k <= n,
        bytes_field(fs, (k + 1) as u64) is None,
    ensures
        key_args(fs, n) is None,
    decreases n,
{
    if n > k {
        lemma_key_args_fail(fs, k, (n - 1) as nat);
    }
}

/// The body of a well-typed operation on a key.
fn encode_key_op(k: &OpKey) -> (r: Vec<u8>)
    requires
        key_arity(k.opcode) == Some(k.args@.len()),
    ensures
        r@ == fields_bytes(concat_pieces(key_op_pieces(k.key_name@, bytes_views(k.args@)))),
{
    let ghost name = k.key_name@;
    let ghost args = bytes_views(k.args@);
    let mut fs: Vec<Field> = Vec::new();
    assert(fields_view(fs@) =~= Seq::<WireField>::empty());
    push_str_field(&mut fs, 1, &k.key_name);
    proof {
        crate::protobuf::lemma_concat_pieces_push(Seq::<Seq<WireField>>::empty(), str_fields(1, name));
        assert(Seq::<Seq<WireField>>::empty().push(str_fields(1, name)) =~= key_op_pieces(name, args.subrange(0, 0)));
        assert(concat_pieces(Seq::<Seq<WireField>>::empty()) =~= Seq::<WireField>::empty());
        assert(fields_view(fs@) =~= concat_pieces(key_op_pieces(name, args.subrange(0, 0))));
        assert forall|j: int| 0 <= j < fs@.len() implies 1 <= #[trigger] field_tag(fs@[j]@) <= 1 by {
            assert(fields_view(fs@)[j] == fs@[j]@);
        }
    }
    let mut i: usize = 0;
    while i < k.args.len()
        invariant
            i <= k.args@.len() <= 3,
            args == bytes_views(k.args@),
            fields_view(fs@) == concat_pieces(key_op_pieces(name, args.subrange(0, i as int))),
            forall|j: int| 0 <= j < fs@.len() ==> 1 <= #[trigger] field_tag(fs@[j]@) <= i + 1,
        decreases k.args@.len() - i,
    {
        let ghost before = fs@;
        let ghost prev = key_op_pieces(name, args.subrange(0, i as int));
        if k.args[i].len() != 0 {
            fs.push(Field::Bytes((i + 2) as u64, k.args[i].clone()));
        }
        proof {
            let piece = bytes_piece((i + 2) as u64, args[i as int]);
            assert(key_op_pieces(name, args.subrange(0, i + 1)) =~= prev.push(piece));
            crate::protobuf::lemma_concat_pieces_push(prev, piece);
            assert(fields_view(fs@) =~= fields_view(before) + piece);
            assert forall|j: int| 0 <= j < fs@.len() implies 1 <= #[trigger] field_tag(fs@[j]@) <= i + 2 by {
                if j < before.len() {
                    assert(fs@[j] == before[j]);
                }
            }
        }
        i = i + 1;
    }
    assert(args.subrange(0, i as int) =~= args);
    assert forall|j: int| 0 <= j < fs@.len() implies match #[trigger] fs@[j]@ {
        WireField::Varint(t, _) => crate::protobuf::valid_tag(t),
        WireField::Bytes(t, _) => crate::protobuf::valid_tag(t),
    } by {
        assert(1 <= field_tag(fs@[j]@) <= 4);
    }
    encode_fields(&fs)
}

/// The nested message of a key description.
fn encode_key_info(k: &KeyInfo) -> (r: Vec<u8>)
    ensures
        r@ == fields_bytes(key_info_fields(k@)),
{
    let mut fs: Vec<Field> = Vec::new();
    assert(fields_view(fs@) =~= Seq::<WireField>::empty());
    push_scalar_field(&mut fs, 1, k.provider_id.to_u8() as u64);
    push_str_field(&mut fs, 2, &k.name);
    let ghost before = fields_view(fs@);
    if k.attributes.len() != 0 {
        fs.push(Field::Bytes(3, k.attributes.clone()));
    }
    assert(fields_view(fs@) =~= before + bytes_piece(3, k.attributes@));
    assert(fields_view(fs@) =~= key_info_fields(k@));
    assert forall|i: int| 0 <= i < fs@.len() implies match #[trigger] fs@[i]@ {
        WireField::Varint(t, _) => crate::protobuf::valid_tag(t),
        WireField::Bytes(t, _) => crate::protobuf::valid_tag(t),
    } by {
        assert(fields_view(fs@)[i] == fs@[i]@);
        assert(1 <= field_tag(fs@[i]@) <= 3);
    }
    encode_fields(&fs)
}

/// The key description that a nested message carries.
fn decode_key_info_message(b: &[u8]) -> (r: Option<KeyInfo>)
    ensures
        match r {
            Some(k) => decode_key_info(b@) == Some(k@),
            None => decode_key_info(b@) is None,
        },
{
    let fs = decode_fields(b)?;
    let id = get_scalar_field(&fs, 1);
    let name = text_of(get_bytes_field(&fs, 2));
    let attributes = get_bytes_field(&fs, 3);
    match (id, name, attributes) {
        (Some(id), Some(name), Some(attributes)) => {
            if id < 5 {
                match ProviderID::from_u8(id as u8) {
                    Some(p) => Some(KeyInfo { provider_id: p, name, attributes }),
                    None => None,
                }
            } else {
                None
            }
        },
        _ => None,
    }
}

proof fn lemma_decode_prefix_fails_keys(bs: Seq<Seq<u8>>, i: int)
    requires
        0 <= i < bs.len(),
        decode_key_info(bs[i]) is None,
    ensures
        decode_key_infos(bs) is None,
    decreases bs.len(),
{
    if i < bs.len() - 1 {
        assert(bs.drop_last()[i] == bs[i]);
        lemma_decode_prefix_fails_keys(bs.drop_last(), i);
    }
}

proof fn lemma_decode_prefix_fails_strings(bs: Seq<Seq<u8>>, i: int)
    requires
        0 <= i < bs.len(),
        string_of(Some(bs[i])) is None,
    ensures
        decode_strings(bs) is None,
    decreases bs.len(),
{
    if i < bs.len() - 1 {
        assert(bs.drop_last()[i] == bs[i]);
        lemma_decode_prefix_fails_strings(bs.drop_last(), i);
    }
}

/// The key descriptions that a list of nested messages carries.
fn decode_key_info_list(bs: &Vec<Vec<u8>>) -> (r: Option<Vec<KeyInfo>>)
    ensures
        match r {
            Some(ks) => decode_key_infos(bytes_views(bs@)) == Some(key_info_views(ks@)),
            None => decode_key_infos(bytes_views(bs@)) is None,
        },
{
    let mut out: Vec<KeyInfo> = Vec::new();
    let mut i: usize = 0;
    assert(bytes_views(bs@).subrange(0, 0) =~= Seq::<Seq<u8>>::empty());
    assert(key_info_views(out@) =~= Seq::<KeyInfoView>::empty());
    while i < bs.len()
        invariant
            i <= bs@.len(),
            decode_key_infos(bytes_views(bs@).subrange(0, i as int)) == Some(key_info_views(out@)),
        decreases bs@.len() - i,
    {
        let ghost cur = bytes_views(bs@).subrange(0, i + 1);
        assert(cur.drop_last() =~= bytes_views(bs@).subrange(0, i as int));
        assert(cur.last() == bs@[i as int]@);
        match decode_key_info_message(bs[i].as_slice()) {
            Some(k) => {
                let ghost before = out@;
                out.push(k);
                assert(key_info_views(out@) =~= key_info_views(before).push(out@.last()@));
            },
            None => {
                proof {
                    assert(bytes_views(bs@)[i as int] == bs@[i as int]@);
                    lemma_decode_prefix_fails_keys(bytes_views(bs@), i as int);
                }
                return None;
            },
        }
        i = i + 1;
    }
    assert(bytes_views(bs@).subrange(0, i as int) =~= bytes_views(bs@));
    Some(out)
}

/// The strings that the values of a repeated string field hold.
fn decode_string_list(bs: Vec<Vec<u8>>) -> (r: Option<Vec<String>>)
    ensures
        match r {
            Some(cs) => decode_strings(bytes_views(bs@)) == Some(string_views(cs@)),
            None => decode_strings(bytes_views(bs@)) is None,
        },
{
    let ghost all = bytes_views(bs@);
    let mut rest = bs;
    let mut out: Vec<String> = Vec::new();
    let mut i: usize = 0;
    let n = rest.len();
    assert(all.subrange(0, 0) =~= Seq::<Seq<u8>>::empty());
    assert(string_views(out@) =~= Seq::<Seq<char>>::empty());
    while rest.len() > 0
        invariant
            i + rest@.len() == n == all.len(),
            all == bytes_views(bs@),
            bytes_views(rest@) == all.subrange(i as int, n as int),
            decode_strings(all.subrange(0, i as int)) == Some(string_views(out@)),
        decreases rest@.len(),
    {
        let ghost old_rest = rest@;
        let b = rest.remove(0);
        let ghost cur = all.subrange(0, i + 1);
        assert(cur.drop_last() =~= all.subrange(0, i as int));
        assert(bytes_views(old_rest)[0] == old_rest[0]@);
        assert(all.subrange(i as int, n as int)[0] == all[i as int]);
        assert(b@ == all[i as int]);
        assert(cur.last() == b@);
        assert(rest@ =~= old_rest.subrange(1, old_rest.len() as int));
        assert forall|k: int| 0 <= k < rest@.len() implies #[trigger] bytes_views(rest@)[k] == all.subrange(i + 1, n as int)[k] by {
            assert(rest@[k] == old_rest[k + 1]);
            assert(bytes_views(old_rest)[k + 1] == all.subrange(i as int, n as int)[k + 1]);
        }
        assert(bytes_views(rest@) =~= all.subrange(i + 1, n as int));
        match string_from_utf8(b) {
            Some(c) => {
                let ghost before = out@;
                out.push(c);
                assert(string_views(out@) =~= string_views(before).push(out@.last()@));
            },
            None => {
                proof {
                    lemma_decode_prefix_fails_strings(all, i as int);
                }
                return None;
            },
        }
        i = i + 1;
    }
    assert(all.subrange(0, i as int) =~= all);
    Some(out)
}

/// Appends a string field, left out where the string is empty.
fn push_str_field(fs: &mut Vec<Field>, tag: u64, text: &String)
    ensures
        fields_view(final(fs)@) == fields_view(old(fs)@) + str_fields(tag, text@),
{
    let ghost before = fs@;
    if text.as_str().unicode_len() != 0 {
        let bytes = text.as_str().as_bytes_vec();
        fs.push(Field::Bytes(tag, bytes));
        assert(fields_view(fs@) =~= fields_view(before) + str_fields(tag, text@));
    } else {
        assert(fields_view(fs@) =~= fields_view(before) + str_fields(tag, text@));
    }
}

/// Appends a varint field, left out where it is zero.
fn push_scalar_field(fs: &mut Vec<Field>, tag: u64, v: u64)
    ensures
        fields_view(final(fs)@) == fields_view(old(fs)@) + scalar_fields(tag, v),
{
    let ghost before = fs@;
    if v != 0 {
        fs.push(Field::Varint(tag, v));
    }
    assert(fields_view(fs@) =~= fields_view(before) + scalar_fields(tag, v));
}

/// The nested message of a provider description.
fn encode_provider_info(p: &ProviderInfo) -> (r: Vec<u8>)
    ensures
        r@ == fields_bytes(provider_info_fields(p@)),
{
    let mut fs: Vec<Field> = Vec::new();
    assert(fields_view(fs@) =~= Seq::<WireField>::empty());
    push_str_field(&mut fs, 1, &p.uuid);
    push_str_field(&mut fs, 2, &p.description);
    push_str_field(&mut fs, 3, &p.vendor);
    push_scalar_field(&mut fs, 4, p.version_maj as u64);
    push_scalar_field(&mut fs, 5, p.version_min as u64);
    push_scalar_field(&mut fs, 6, p.version_rev as u64);
    push_scalar_field(&mut fs, 7, p.id.to_u8() as u64);
    assert(fields_view(fs@) =~= provider_info_fields(p@));
    assert forall|i: int| 0 <= i < fs@.len() implies match #[trigger] fs@[i]@ {
        WireField::Varint(t, _) => crate::protobuf::valid_tag(t),
        WireField::Bytes(t, _) => crate::protobuf::valid_tag(t),
    } by {
        assert(fields_view(fs@)[i] == fs@[i]@);
        assert(1 <= field_tag(fs@[i]@) <= 7);
    }
    encode_fields(&fs)
}

/// The nested message of an authenticator description.
fn encode_authenticator_info(a: &AuthenticatorInfo) -> (r: Vec<u8>)
    ensures
        r@ == fields_bytes(authenticator_info_fields(a@)),
{
    let mut fs: Vec<Field> = Vec::new();
    assert(fields_view(fs@) =~= Seq::<WireField>::empty());
    push_str_field(&mut fs, 1, &a.description);
    push_scalar_field(&mut fs, 2, a.version_maj as u64);
    push_scalar_field(&mut fs, 3, a.version_min as u64);
    push_scalar_field(&mut fs, 4, a.version_rev as u64);
    push_scalar_field(&mut fs, 5, a.id.to_u8() as u64);
    assert(fields_view(fs@) =~= authenticator_info_fields(a@));
    assert forall|i: int| 0 <= i < fs@.len() implies match #[trigger] fs@[i]@ {
        WireField::Varint(t, _) => crate::protobuf::valid_tag(t),
        WireField::Bytes(t, _) => crate::protobuf::valid_tag(t),
    } by {
        assert(fields_view(fs@)[i] == fs@[i]@);
        assert(1 <= field_tag(fs@[i]@) <= 5);
    }
    encode_fields(&fs)
}

/// The view of optional bytes.
pub open spec fn opt_bytes_view(b: Option<Vec<u8>>) -> Option<Seq<u8>> {
    match b {
        Some(v) => Some(v@),
        None => None,
    }
}

/// The text of a string field.
fn text_of(b: Option<Vec<u8>>) -> (r: Option<String>)
    ensures
        match r {
            Some(t) => string_of(opt_bytes_view(b)) == Some(t@),
            None => string_of(opt_bytes_view(b)) is None,
        },
{
    match b {
        Some(v) => string_from_utf8(v),
        None => None,
    }
}

/// The value of a `uint32` field.
fn u32_value(v: Option<u64>) -> (r: Option<u32>)
    ensures
        r == u32_of(v),
{
    match v {
        Some(x) => if x <= 0xffff_ffff {
            Some(x as u32)
        } else {
            None
        },
        None => None,
    }
}

/// The provider description that a nested message carries.
fn decode_provider_info_message(b: &[u8]) -> (r: Option<ProviderInfo>)
    ensures
        match r {
            Some(p) => decode_provider_info(b@) == Some(p@),
            None => decode_provider_info(b@) is None,
        },
{
    let fs = decode_fields(b)?;
    let uuid = text_of(get_bytes_field(&fs, 1));
    let description = text_of(get_bytes_field(&fs, 2));
    let vendor = text_of(get_bytes_field(&fs, 3));
    let maj = u32_value(get_scalar_field(&fs, 4));
    let min = u32_value(get_scalar_field(&fs, 5));
    let rev = u32_value(get_scalar_field(&fs, 6));
    let id = get_scalar_field(&fs, 7);
    match (uuid, description, vendor, maj, min, rev, id) {
        (Some(uuid), Some(description), Some(vendor), Some(maj), Some(min), Some(rev), Some(id)) => {
            if id < 5 {
                match ProviderID::from_u8(id as u8) {
                    Some(pid) => Some(
                        ProviderInfo {
                            uuid,
                            description,
                            vendor,
                            version_maj: maj,
                            version_min: min,
                            version_rev: rev,
                            id: pid,
                        },
                    ),
                    None => None,
                }
            } else {
                None
            }
        },
        _ => None,
    }
}

/// The authenticator description that a nested message carries.
fn decode_authenticator_info_message(b: &[u8]) -> (r: Option<AuthenticatorInfo>)
    ensures
        match r {
            Some(a) => decode_authenticator_info(b@) == Some(a@),
            None => decode_authenticator_info(b@) is None,
        },
{
    let fs = decode_fields(b)?;
    let description = text_of(get_bytes_field(&fs, 1));
    let maj = u32_value(get_scalar_field(&fs, 2));
    let min = u32_value(get_scalar_field(&fs, 3));
    let rev = u32_value(get_scalar_field(&fs, 4));
    let id = get_scalar_field(&fs, 5);
    match (description, maj, min, rev, id) {
        (Some(description), Some(maj), Some(min), Some(rev), Some(id)) => {
            if id < 3 {
                match AuthType::from_u8(id as u8) {
                    Some(a) => Some(
                        AuthenticatorInfo {
                            description,
                            version_maj: maj,
                            version_min: min,
                            version_rev: rev,
                            id: a,
                        },
                    ),
                    None => None,
                }
            } else {
                None
            }
        },
        _ => None,
    }
}

/// The opcodes that a list of numbers names, where each of them is an opcode.
fn numbers_to_opcodes(vs: &Vec<u64>) -> (r: Option<Vec<Opcode>>)
    ensures
        r is Some <==> all_opcodes(vs@),
        r matches Some(ops) ==> ops@ == opcodes_of_numbers(vs@),
{
    let mut ops: Vec<Opcode> = Vec::new();
    let mut i: usize = 0;
    while i < vs.len()
        invariant
            i <= vs@.len(),
            all_opcodes(vs@.subrange(0, i as int)),
            ops@ == opcodes_of_numbers(vs@.subrange(0, i as int)),
        decreases vs@.len() - i,
    {
        let v = vs[i];
        let o = if v <= 0xffff {
            Opcode::from_u16(v as u16)
        } else {
            None
        };
        match o {
            Some(o) => {
                ops.push(o);
            },
            None => {
                assert(!(vs@[i as int] <= u16::MAX && is_opcode_value(vs@[i as int] as u16)));
                return None;
            },
        }
        i = i + 1;
        assert(all_opcodes(vs@.subrange(0, i as int))) by {
            assert forall|j: int| 0 <= j < i implies #[trigger] vs@.subrange(0, i as int)[j]
                <= u16::MAX && is_opcode_value(vs@.subrange(0, i as int)[j] as u16) by {
                if j < i - 1 {
                    assert(vs@.subrange(0, i as int)[j] == vs@.subrange(0, i - 1)[j]);
                }
            }
        }
        assert(ops@ =~= opcodes_of_numbers(vs@.subrange(0, i as int)));
    }
    assert(vs@.subrange(0, i as int) =~= vs@);
    Some(ops)
}

impl Convert for ProtobufConverter {
    open spec fn spec_body_to_operation(&self, body: Seq<u8>, opcode: Opcode) -> Result<
        OperationView,
        ResponseStatus,
    > {
        decode_operation(body, opcode)
    }

    open spec fn spec_body_from_operation(&self, op: OperationView) -> Seq<u8> {
        operation_body(op)
    }

    open spec fn spec_body_to_result(&self, body: Seq<u8>, opcode: Opcode) -> Result<
        ResultView,
        ResponseStatus,
    > {
        decode_result(body, opcode)
    }

    open spec fn spec_body_from_result(&self, r: ResultView) -> Seq<u8> {
        result_body(r)
    }

    fn body_to_operation(&self, body: &[u8], opcode: Opcode) -> (r: Result<
        ConvertOperation,
        ResponseStatus,
    >) {
        ProtobufConverter::decode_operation(body, opcode)
    }

    fn body_from_operation(&self, op: &ConvertOperation) -> (r: Result<Vec<u8>, ResponseStatus>) {
        ProtobufConverter::encode_operation(op)
    }

    fn body_to_result(&self, body: &[u8], opcode: Opcode) -> (r: Result<
        ConvertResult,
        ResponseStatus,
    >) {
        ProtobufConverter::decode_result(body, opcode)
    }

    fn body_from_result(&self, result: &ConvertResult) -> (r: Result<Vec<u8>, ResponseStatus>) {
        Ok(ProtobufConverter::encode_result(result))
    }
}

} // verus!
